//! The exclusion store: hosts whose CONNECT traffic is tunneled raw
//! instead of intercepted.

use vstd::prelude::*;

verus! {

/// True when some entry equals the host.
pub open spec fn holds_host(s: Seq<String>, h: Seq<char>) -> bool {
    exists|i: int| 0 <= i < s.len() && s[i]@ == h
}

/// The set of excluded hosts. Readers dominate writers: the proxy
/// consults it on every CONNECT, the admin surface replaces it rarely.
pub struct LocalExclusionStore {
    pub hosts: Vec<String>,
}

impl LocalExclusionStore {
    /// A store holding exactly the given hosts.
    pub fn new(hosts: Vec<String>) -> (r: Self)
        ensures
            r.hosts@ == hosts@,
    {
        LocalExclusionStore { hosts }
    }

    /// Whether interception is bypassed for this host.
    pub fn contains(&self, host: &str) -> (r: bool)
        ensures
            r == holds_host(self.hosts@, host@),
    {
        let needle: String = host.to_owned();
        let n: usize = self.hosts.len();
        let mut i: usize = 0;
        while i < n
            invariant
                needle@ == host@,
                n == self.hosts@.len(),
                0 <= i <= n,
                forall|j: int| 0 <= j < i ==> self.hosts@[j]@ != host@,
            decreases n - i,
        {
            if self.hosts[i] == needle {
                proof {
                    assert(self.hosts@[i as int]@ == host@);
                }
                return true;
            }
            i = i + 1;
        }
        false
    }

    /// Replaces the whole exclusion list.
    pub fn replace_exclusions(&mut self, hosts: Vec<String>)
        ensures
            final(self).hosts@ == hosts@,
    {
        self.hosts = hosts;
    }
}

} // verus!

//! Trusted boundary to the adblock crate's compiled filter engine.
//!
//! The engine, the filter set and the request are opaque to the rest of
//! the crate; the spec names below give each its abstract content: the
//! sequence of filter-list texts it was compiled from, and the parts of
//! a parsed request. The match decision is named as a function of those,
//! which is all the callers' contracts rely on. The strings a match
//! reports (the filter text, a redirect payload) and the cosmetic
//! selector sets come back as plain values with nothing promised, and
//! verified code states what it does for every such value.

use vstd::prelude::*;
use adblock::resources::MimeType;
use adblock::resources::PermissionMask;
use adblock::resources::ResourceType;
use crate::blocker::NetworkBlockerResult;
use crate::blocker_utils::Resource;
use crate::blocker_utils::ResourceKind;

verus! {

#[verifier::external_type_specification]
#[verifier::external_body]
pub struct ExEngine(adblock::Engine);

#[verifier::external_type_specification]
#[verifier::external_body]
pub struct ExFilterSet(adblock::lists::FilterSet);

#[verifier::external_type_specification]
#[verifier::external_body]
pub struct ExRequest(adblock::request::Request);

/// The filter-list texts a `FilterSet` has accumulated, in order.
pub uninterp spec fn filter_set_lists(s: adblock::lists::FilterSet) -> Seq<Seq<char>>;

/// The filter-list texts an `Engine` was compiled from, in order.
pub uninterp spec fn engine_lists(e: adblock::Engine) -> Seq<Seq<char>>;

/// The URL a parsed request carries.
pub uninterp spec fn request_url(r: adblock::request::Request) -> Seq<char>;

/// The source (referer) URL a parsed request carries.
pub uninterp spec fn request_source(r: adblock::request::Request) -> Seq<char>;

/// The resource type a parsed request carries.
pub uninterp spec fn request_rtype(r: adblock::request::Request) -> Seq<char>;

/// Whether request construction succeeds for these texts; adblock
/// accepts or rejects a request by parsing the texts alone (its source
/// shows only the request URL can make it fail).
pub uninterp spec fn request_parses(url: Seq<char>, source: Seq<char>) -> bool;

/// The engine's match decision: whether a request with these parts is
/// blocked under these filter lists. The decision is a function of the
/// compiled rules and the request alone.
pub uninterp spec fn network_blocked(
    lists: Seq<Seq<char>>,
    url: Seq<char>,
    source: Seq<char>,
    rtype: Seq<char>,
) -> bool;

/// Relies on adblock's `Engine::new`: an engine created without rules
/// matches as if compiled from no filter lists.
pub assume_specification[ adblock::Engine::new ](optimize: bool) -> (e: adblock::Engine)
    ensures
        engine_lists(e) == Seq::<Seq<char>>::empty(),
;

/// Relies on adblock's `FilterSet::new`: a fresh set holds no lists.
pub assume_specification[ adblock::lists::FilterSet::new ](debug: bool) -> (s:
    adblock::lists::FilterSet)
    ensures
        filter_set_lists(s) == Seq::<Seq<char>>::empty(),
;

/// Relies on adblock's `FilterSet::add_filter_list`: appends the rules
/// parsed from one more filter-list text, with default parse options.
#[verifier::external_body]
pub fn filter_set_add(set: &mut adblock::lists::FilterSet, filter_list: &str)
    ensures
        filter_set_lists(*final(set)) == filter_set_lists(*old(set)).push(filter_list@),
{
    set.add_filter_list(filter_list, adblock::lists::ParseOptions::default());
}

/// Relies on adblock's `Engine::from_filter_set`: compiles exactly the
/// lists the set accumulated.
pub assume_specification[ adblock::Engine::from_filter_set ](
    set: adblock::lists::FilterSet,
    optimize: bool,
) -> (e: adblock::Engine)
    ensures
        engine_lists(e) == filter_set_lists(set),
;

/// Relies on adblock's `Engine::use_resources`: replaces the scriptlet
/// and redirect resources without touching the compiled rules.
#[verifier::external_body]
pub fn engine_use_resources(e: &mut adblock::Engine, resources: &Vec<Resource>)
    ensures
        engine_lists(*final(e)) == engine_lists(*old(e)),
{
    let converted: Vec<adblock::resources::Resource> = resources.iter().map(
        |r| adblock::resources::Resource {
            name: r.name.clone(),
            aliases: r.aliases.clone(),
            kind: match &r.kind {
                ResourceKind::Template => ResourceType::Template,
                ResourceKind::Mime(m) => ResourceType::Mime(MimeType::from(m.as_str())),
            },
            content: r.content.clone(),
            dependencies: r.dependencies.clone(),
            permission: PermissionMask::from_bits(r.permission),
        },
    ).collect();
    e.use_resources(converted);
}

/// Relies on adblock's `Request::new`: construction succeeds iff the
/// request URL parses, and the request then carries the given parts.
#[verifier::external_body]
pub fn request_parse(url: &str, source: &str, rtype: &str) -> (r: Option<
    adblock::request::Request,
>)
    ensures
        r is Some <==> request_parses(url@, source@),
        r is Some ==> request_url(r.unwrap()) == url@ && request_source(r.unwrap()) == source@
            && request_rtype(r.unwrap()) == rtype@,
{
    adblock::request::Request::new(url, source, rtype).ok()
}

/// Relies on adblock's `Engine::check_network_request`: the match bit is
/// the engine's decision for this request under the engine's rules. The
/// reported strings (filter, redirect, exception, rewritten URL) are
/// carried over with nothing promised about them.
#[verifier::external_body]
pub fn check_request(e: &adblock::Engine, req: &adblock::request::Request) -> (r:
    NetworkBlockerResult)
    ensures
        r.matched == network_blocked(
            engine_lists(*e),
            request_url(*req),
            request_source(*req),
            request_rtype(*req),
        ),
{
    let result = e.check_network_request(req);
    NetworkBlockerResult {
        matched: result.matched,
        important: result.important,
        redirect: result.redirect,
        exception: result.exception,
        filter: result.filter,
        rewritten_url: result.rewritten_url,
    }
}

/// What one cosmetic query returns, with the adblock crate's hash sets
/// flattened to vectors in no particular order.
pub struct UrlResources {
    pub hide_selectors: Vec<String>,
    pub procedural_actions: Vec<String>,
    pub exceptions: Vec<String>,
    pub injected_script: String,
    pub generichide: bool,
}

/// Relies on adblock's `Engine::url_cosmetic_resources`: the selector
/// sets and scriptlet for one URL. Their values depend on the engine's
/// rules and resources; nothing is promised about them, and the callers
/// state what they assemble from every possible value.
#[verifier::external_body]
pub fn cosmetic_resources_for(e: &adblock::Engine, url: &str) -> (r: UrlResources) {
    let u = e.url_cosmetic_resources(url);
    UrlResources {
        hide_selectors: u.hide_selectors.into_iter().collect(),
        procedural_actions: u.procedural_actions.into_iter().collect(),
        exceptions: u.exceptions.into_iter().collect(),
        injected_script: u.injected_script,
        generichide: u.generichide,
    }
}

/// Relies on adblock's `Engine::hidden_class_id_selectors`: the generic
/// hide selectors for these classes and ids, minus the exceptions.
/// Nothing is promised about the returned selectors.
#[verifier::external_body]
pub fn hidden_selectors_for(
    e: &adblock::Engine,
    classes: &Vec<String>,
    ids: &Vec<String>,
    exceptions: &Vec<String>,
) -> (r: Vec<String>) {
    let ex: std::collections::HashSet<String> = exceptions.iter().cloned().collect();
    e.hidden_class_id_selectors(classes.iter().map(|s| s.as_str()), ids.iter().map(|s| s.as_str()), &ex)
}

} // verus!

//! Filtering the requests a page makes with Adblock Plus-syntax lists.
use vstd::prelude::*;

verus! {

#[verifier::external_type_specification]
#[verifier::external_body]
pub struct ExFilterSet(adblock::lists::FilterSet);

#[verifier::external_type_specification]
#[verifier::external_body]
pub struct ExEngine(adblock::Engine);

/// The filter lists a `FilterSet` has been given, in order.
pub uninterp spec fn filter_set_lists(s: adblock::lists::FilterSet) -> Seq<Seq<char>>;

/// The filter lists an `Engine` was built from, in order.
pub uninterp spec fn engine_lists(e: adblock::Engine) -> Seq<Seq<char>>;

/// What an engine built from `lists` reports for a `GET` request of `url`
/// made by `source` for a resource of type `resource_type`: whether a blocking
/// rule matched and whether an exception rule matched; `None` when `adblock`
/// cannot build a request from them (`Request::new` fails).
pub uninterp spec fn request_verdict(
    lists: Seq<Seq<char>>,
    url: Seq<char>,
    source: Seq<char>,
    resource_type: Seq<char>,
) -> Option<(bool, bool)>;

/// `FilterSet::new(false)`: the contract claims that it holds no list.
#[verifier::external_body]
fn new_filter_set() -> (s: adblock::lists::FilterSet)
    ensures
        filter_set_lists(s) == Seq::<Seq<char>>::empty(),
{
    adblock::lists::FilterSet::new(false)
}

/// `FilterSet::add_filter_list` with default parse options: the contract
/// claims that the list is added after those already held.
#[verifier::external_body]
fn add_filter_list(s: &mut adblock::lists::FilterSet, text: &str)
    ensures
        filter_set_lists(*final(s)) == filter_set_lists(*old(s)).push(text@),
{
    s.add_filter_list(text.to_string(), adblock::lists::ParseOptions::default());
}

/// `Engine::new_with_filter_set`: the contract claims that the engine holds
/// the lists of the set.
#[verifier::external_body]
fn engine_from(s: adblock::lists::FilterSet) -> (e: adblock::Engine)
    ensures
        engine_lists(e) == filter_set_lists(s),
{
    adblock::Engine::new_with_filter_set(s)
}

/// `Request::new(url, source, resource_type, "GET")` and, when it succeeds,
/// `Engine::check_network_request`, reduced to whether the result holds a
/// matching filter and a matching exception. The contract claims only that
/// the result is a function of the engine's lists and the three texts, named
/// `request_verdict`.
#[verifier::external_body]
fn check_request(e: &adblock::Engine, url: &str, source: &str, resource_type: &str) -> (r: Option<
    (bool, bool),
>)
    ensures
        r == request_verdict(engine_lists(*e), url@, source@, resource_type@),
{
    match adblock::request::Request::new(url, source, resource_type, "GET") {
        Ok(req) => {
            let res = e.check_network_request(&req);
            Some((res.filter.is_some(), res.exception.is_some()))
        },
        Err(_) => None,
    }
}

/// The built-in rules: third-party advertising, analytics, consent and
/// telemetry entry points.
pub const DEFAULT_RULES: &'static str = "! v8cli built-in request filters
! Advertising
||googletagservices.com^$third-party
||googlesyndication.com^$third-party
||doubleclick.net^$third-party
||amazon-adsystem.com^$third-party
||doubleverify.com^$third-party
||adnxs.com^$third-party
||criteo.com^$third-party
||taboola.com^$third-party
||outbrain.com^$third-party
! Analytics and telemetry
||google-analytics.com^
||googletagmanager.com^$third-party
||connect.facebook.net^$third-party
||hotjar.com^$third-party
||scorecardresearch.com^$third-party
||chartbeat.com^$third-party
||segment.io^$third-party
||newrelic.com^$third-party
||nr-data.net^$third-party
! Consent managers
||cookielaw.org^$third-party
||onetrust.com^$third-party
";

/// Adblock Plus-syntax matcher for the requests a page makes. Built once per
/// session: matching is a few microseconds, building is tens of milliseconds.
pub struct Blocklist {
    engine: adblock::Engine,
}

impl View for Blocklist {
    type V = Seq<Seq<char>>;

    /// The filter lists the matcher holds, in order.
    closed spec fn view(&self) -> Seq<Seq<char>> {
        engine_lists(self.engine)
    }
}

/// The views of a sequence of strings.
pub open spec fn string_seq_view(v: Seq<String>) -> Seq<Seq<char>> {
    v.map_values(|s: String| s@)
}

/// Whether a request is blocked by the lists: a blocking rule matched and no
/// exception did; a request that cannot be built is never blocked.
pub open spec fn blocked_by(
    lists: Seq<Seq<char>>,
    url: Seq<char>,
    page_url: Seq<char>,
    resource_type: Seq<char>,
) -> bool {
    match request_verdict(lists, url, page_url, resource_type) {
        Some((filter, exception)) => filter && !exception,
        None => false,
    }
}

impl Blocklist {
    /// A matcher over the texts of the filter lists `extra`, after the
    /// built-in rules unless `use_default` is false.
    pub fn new(extra: &[String], use_default: bool) -> (b: Blocklist)
        ensures
            b@ == (if use_default {
                seq![DEFAULT_RULES@]
            } else {
                Seq::<Seq<char>>::empty()
            }) + string_seq_view(extra@),
    {
        let mut set = new_filter_set();
        if use_default {
            add_filter_list(&mut set, DEFAULT_RULES);
        }
        let ghost base = filter_set_lists(set);
        let mut i: usize = 0;
        while i < extra.len()
            invariant
                i <= extra@.len(),
                filter_set_lists(set) == base + string_seq_view(extra@.take(i as int)),
            decreases extra@.len() - i,
        {
            add_filter_list(&mut set, extra[i].as_str());
            assert(string_seq_view(extra@.take(i + 1)) =~= string_seq_view(extra@.take(i as int)).push(
                extra@[i as int]@,
            ));
            i += 1;
        }
        assert(extra@.take(extra@.len() as int) =~= extra@);
        Blocklist { engine: engine_from(set) }
    }

    /// Whether a request for `url` of `resource_type` ("script", "xhr",
    /// "image", "sub_frame", ...) made by the page at `page_url` is blocked. An
    /// unparseable URL is never blocked, so a malformed request still reaches
    /// the network layer's own validation.
    pub fn blocks(&self, url: &str, page_url: &str, resource_type: &str) -> (r: bool)
        ensures
            r == blocked_by(self@, url@, page_url@, resource_type@),
    {
        match check_request(&self.engine, url, page_url, resource_type) {
            Some((filter, exception)) => filter && !exception,
            None => false,
        }
    }
}

} // verus!

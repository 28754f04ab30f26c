//! Containers: what each release's container is started with, the records of the started
//! ones, and the bounded polling of their HTTP endpoint.
use vstd::prelude::*;

use crate::docker::pair_views;
use crate::rails::versions::{release_lt, version_text, ReleaseVersion};
use crate::text::{concat_three, decimal, decimal_string, views};

verus! {

/// Host port of the first container; the others follow it one by one.
pub const BASE_PORT: u16 = 3000;

/// Port the application listens on inside every container.
pub const APP_PORT: u16 = 3000;

/// Requests sent to a container before it is given up on.
pub const MAX_POLL_ATTEMPTS: u32 = 11;

/// Pause before each request, in milliseconds.
pub const POLL_INTERVAL_MS: u64 = 1000;

/// How one container is created: the release it serves, its image, its name, its
/// environment and its port binding.
pub struct ContainerSpec {
    pub rails_version: String,
    pub image_tag: String,
    pub container_name: String,
    pub env: Vec<String>,
    pub app_port: u16,
    pub host_port: u16,
}

/// What a container's creation is.
pub struct ContainerSpecView {
    pub rails_version: Seq<char>,
    pub image_tag: Seq<char>,
    pub container_name: Seq<char>,
    pub env: Seq<Seq<char>>,
    pub app_port: u16,
    pub host_port: u16,
}

impl View for ContainerSpec {
    type V = ContainerSpecView;

    open spec fn view(&self) -> ContainerSpecView {
        ContainerSpecView {
            rails_version: self.rails_version@,
            image_tag: self.image_tag@,
            container_name: self.container_name@,
            env: views(self.env@),
            app_port: self.app_port,
            host_port: self.host_port,
        }
    }
}

/// A started container: the release it serves, written out too, its id and its host port.
pub struct ContainerRecord {
    pub release: ReleaseVersion,
    pub rails_version: String,
    pub container_id: String,
    pub host_port: u16,
}

/// What a container record is.
pub struct ContainerRecordView {
    pub release: ReleaseVersion,
    pub rails_version: Seq<char>,
    pub container_id: Seq<char>,
    pub host_port: u16,
}

impl View for ContainerRecord {
    type V = ContainerRecordView;

    open spec fn view(&self) -> ContainerRecordView {
        ContainerRecordView {
            release: self.release,
            rails_version: self.rails_version@,
            container_id: self.container_id@,
            host_port: self.host_port,
        }
    }
}

/// The views of a list of container records.
pub open spec fn record_views(v: Seq<ContainerRecord>) -> Seq<ContainerRecordView> {
    v.map_values(|c: ContainerRecord| c@)
}

/// Whether the records' releases strictly ascend, each written out as its text.
pub open spec fn records_in_order(rs: Seq<ContainerRecordView>) -> bool {
    &&& forall|i: int, j: int|
        0 <= i < j < rs.len() ==> release_lt(#[trigger] rs[i].release, #[trigger] rs[j].release)
    &&& forall|i: int| 0 <= i < rs.len() ==> #[trigger] rs[i].rails_version == version_text(
        rs[i].release,
    )
}

/// Body a release's test application answers with.
pub open spec fn expected_body(rails_version: Seq<char>) -> Seq<char> {
    "{\"version\":\""@ + rails_version + "\"}"@
}

/// URL of the test application behind `port`.
pub open spec fn poll_url(port: u16) -> Seq<char> {
    "http://localhost:"@ + decimal(port as nat) + "/"@
}

/// What the percent-decoding of `text` gives: `None` when the decoded bytes are no UTF-8.
pub uninterp spec fn percent_decoded(text: Seq<char>) -> Option<Seq<char>>;

/// Relies on `urlencoding::decode`: the result depends on the text alone, and text without
/// `%` comes back unchanged.
#[verifier::external_body]
fn percent_decode(text: &str) -> (r: Option<String>)
    ensures
        r is Some == percent_decoded(text@) is Some,
        r is Some ==> percent_decoded(text@) == Some(r.unwrap()@),
        !text@.contains('%') ==> r is Some && r.unwrap()@ == text@,
{
    match urlencoding::decode(text) {
        Ok(d) => Some(d.into_owned()),
        Err(_) => None,
    }
}

/// Percent-decodes `text`; `None` when the decoded bytes are no UTF-8.
pub fn decode_cookie_header(text: &str) -> (r: Option<String>)
    ensures
        r is Some == percent_decoded(text@) is Some,
        r is Some ==> percent_decoded(text@) == Some(r.unwrap()@),
        !text@.contains('%') ==> r is Some && r.unwrap()@ == text@,
{
    percent_decode(text)
}

/// Why a container's answer was refused.
pub enum PollError {
    /// The body is not the one the release's application sends; it is carried along.
    WrongBody(String),
    /// A `Set-Cookie` header does not percent-decode to UTF-8; it is carried along.
    UndecodableCookie(String),
}

/// The (release, decoded header) records of a set of `Set-Cookie` headers.
pub open spec fn cookie_records(
    rails_version: Seq<char>,
    headers: Seq<Seq<char>>,
) -> Seq<(Seq<char>, Seq<char>)> {
    headers.map_values(|h: Seq<char>| (rails_version, percent_decoded(h).unwrap()))
}

/// Where a poller stands after one more unanswered request, having seen `failures` of them:
/// the new count, and whether it gives up.
pub open spec fn unanswered_step(failures: nat) -> (nat, bool) {
    (failures + 1, failures + 1 >= MAX_POLL_ATTEMPTS as nat)
}

/// Where a fresh poller stands after `k` unanswered requests in a row.
pub open spec fn silent_run(k: nat) -> (nat, bool)
    decreases k,
{
    if k == 0 {
        (0, false)
    } else {
        unanswered_step(silent_run((k - 1) as nat).0)
    }
}

/// A target that never answers is given up on at the request that reaches the attempt cap,
/// and not before.
pub proof fn lemma_silent_target_given_up(k: nat)
    requires
        1 <= k <= MAX_POLL_ATTEMPTS,
    ensures
        silent_run(k).0 == k,
        silent_run(k).1 <==> k == MAX_POLL_ATTEMPTS,
    decreases k,
{
    assert(silent_run(0) == (0nat, false));
    assert(silent_run(k) == unanswered_step(silent_run((k - 1) as nat).0));
    if k > 1 {
        lemma_silent_target_given_up((k - 1) as nat);
    }
}

/// The polling of one container: the release it serves, its host port and how many
/// requests went unanswered so far.
pub struct Poller {
    rails_version: String,
    host_port: u16,
    failures: u32,
}

impl Poller {
    pub closed spec fn version_view(&self) -> Seq<char> {
        self.rails_version@
    }

    pub closed spec fn port(&self) -> u16 {
        self.host_port
    }

    /// Requests that went unanswered so far.
    pub closed spec fn failures(&self) -> nat {
        self.failures as nat
    }

    /// Whether the poller has given up.
    pub open spec fn exhausted(&self) -> bool {
        self.failures() >= MAX_POLL_ATTEMPTS
    }

    /// A poller that has sent nothing yet.
    pub fn new(rails_version: String, host_port: u16) -> (r: Self)
        ensures
            r.version_view() == rails_version@,
            r.port() == host_port,
            r.failures() == 0,
    {
        Poller { rails_version, host_port, failures: 0 }
    }

    /// The release the container serves.
    pub fn rails_version(&self) -> (r: &str)
        ensures
            r@ == self.version_view(),
    {
        self.rails_version.as_str()
    }

    /// The container's host port.
    pub fn host_port(&self) -> (r: u16)
        ensures
            r == self.port(),
    {
        self.host_port
    }

    /// The URL to request.
    pub fn url(&self) -> (r: String)
        ensures
            r@ == poll_url(self.port()),
    {
        let port = decimal_string(self.host_port as u64);
        concat_three("http://localhost:", port.as_str(), "/")
    }

    /// Records an unanswered request. Once the attempt cap is reached the poller gives up,
    /// and the release contributes no cookie: `Some` of an empty list. Otherwise `None`:
    /// try again after the interval.
    pub fn on_unreachable(&mut self) -> (r: Option<Vec<(String, String)>>)
        requires
            !old(self).exhausted(),
        ensures
            (final(self).failures(), r is Some) == unanswered_step(old(self).failures()),
            final(self).version_view() == old(self).version_view(),
            final(self).port() == old(self).port(),
            r matches Some(c) ==> c@.len() == 0,
    {
        self.failures = self.failures + 1;
        if self.failures >= MAX_POLL_ATTEMPTS {
            Some(Vec::new())
        } else {
            None
        }
    }

    /// Checks an answer: the body must be the release's own, and every `Set-Cookie` header
    /// is percent-decoded into a (release, cookie) record, in order.
    pub fn on_response(&self, body: &str, set_cookies: &Vec<String>) -> (r: Result<
        Vec<(String, String)>,
        PollError,
    >)
        ensures
            r is Ok <==> body@ == expected_body(self.version_view()) && forall|i: int|
                0 <= i < set_cookies@.len() ==> percent_decoded(
                    #[trigger] views(set_cookies@)[i],
                ) is Some,
            r matches Ok(c) ==> pair_views(c@) == cookie_records(
                self.version_view(),
                views(set_cookies@),
            ),
            r matches Err(PollError::WrongBody(b)) ==> body@ != expected_body(
                self.version_view(),
            ) && b@ == body@,
            r matches Err(PollError::UndecodableCookie(h)) ==> body@ == expected_body(
                self.version_view(),
            ) && exists|i: int|
                0 <= i < set_cookies@.len() && views(set_cookies@)[i] == h@ && percent_decoded(
                    #[trigger] views(set_cookies@)[i],
                ) is None,
    {
        let expected = concat_three("{\"version\":\"", self.rails_version.as_str(), "\"}");
        let got = body.to_owned();
        if got != expected {
            return Err(PollError::WrongBody(got));
        }
        assert(body@ == expected_body(self.version_view()));
        let ghost hv = views(set_cookies@);
        let mut out: Vec<(String, String)> = Vec::new();
        let mut i: usize = 0;
        while i < set_cookies.len()
            invariant
                hv == views(set_cookies@),
                body@ == expected_body(self.version_view()),
                i <= set_cookies@.len(),
                forall|k: int| 0 <= k < i ==> percent_decoded(#[trigger] hv[k]) is Some,
                pair_views(out@) == cookie_records(self.version_view(), hv.take(i as int)),
            decreases set_cookies@.len() - i,
        {
            assert(hv[i as int] == set_cookies@[i as int]@);
            match percent_decode(set_cookies[i].as_str()) {
                Some(d) => {
                    let ghost prev = pair_views(out@);
                    let rec = (self.rails_version.clone(), d);
                    out.push(rec);
                    assert(hv.take(i as int + 1) =~= hv.take(i as int).push(hv[i as int]));
                    assert(pair_views(out@) =~= prev.push((rec.0@, rec.1@)));
                    assert(pair_views(out@) =~= cookie_records(
                        self.version_view(),
                        hv.take(i as int + 1),
                    ));
                },
                None => {
                    assert(percent_decoded(hv[i as int]) is None);
                    return Err(PollError::UndecodableCookie(set_cookies[i].clone()));
                },
            }
            i += 1;
        }
        assert(hv.take(set_cookies@.len() as int) =~= hv);
        Ok(out)
    }
}

} // verus!

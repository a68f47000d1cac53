//! Classifies and decodes the forge's reply: the transport status first,
//! then the optional error list that may sit beside partial data, then the
//! per-alias payloads. Success and partial-failure bodies share one loose
//! shape, so the body is decoded defensively: whatever does not have the
//! documented form is either a fatal malformed-response error (where the
//! forge promised a field) or simply contributes nothing (where the field
//! is optional).

use crate::error::{ErrorV, FundError};
use crate::source::{entry_views, SourceEntry, SourceEntryV, SourceV};
use crate::text::{dec_of, push_char, str_eq};
use vstd::prelude::*;

verus! {

/// One entry of the response's error list, shape only: either field may be
/// missing or non-textual, and the classifier decides what that means.
#[derive(Clone, Debug, PartialEq, Eq)]
pub struct ApiErrorEntry {
    pub message: Option<String>,
    pub etype: Option<String>,
}

/// The mathematical value of an `ApiErrorEntry`.
pub struct ApiErrorEntryV {
    pub message: Option<Seq<char>>,
    pub etype: Option<Seq<char>>,
}

impl View for ApiErrorEntry {
    type V = ApiErrorEntryV;

    open spec fn view(&self) -> ApiErrorEntryV {
        ApiErrorEntryV {
            message: match self.message {
                Some(m) => Some(m@),
                None => None,
            },
            etype: match self.etype {
                Some(t) => Some(t@),
                None => None,
            },
        }
    }
}

/// The mathematical values of an error-entry vector.
pub open spec fn err_views(s: Seq<ApiErrorEntry>) -> Seq<ApiErrorEntryV> {
    s.map_values(|e: ApiErrorEntry| e@)
}

/// A funding link as the response carries it, shape unchecked.
#[derive(Clone, Debug, PartialEq, Eq)]
pub struct RawLink {
    pub platform: Option<String>,
    pub url: Option<String>,
}

/// The mathematical value of a `RawLink`.
pub struct RawLinkV {
    pub platform: Option<Seq<char>>,
    pub url: Option<Seq<char>>,
}

impl View for RawLink {
    type V = RawLinkV;

    open spec fn view(&self) -> RawLinkV {
        RawLinkV {
            platform: match self.platform {
                Some(p) => Some(p@),
                None => None,
            },
            url: match self.url {
                Some(u) => Some(u@),
                None => None,
            },
        }
    }
}

/// The mathematical values of a raw-link vector.
pub open spec fn raw_views(s: Seq<RawLink>) -> Seq<RawLinkV> {
    s.map_values(|l: RawLink| l@)
}

/// What the response holds for one alias.
#[derive(Clone, Debug, PartialEq, Eq)]
pub enum AliasReply {
    /// The alias resolved to nothing usable: an unknown or private
    /// repository, or an owner without a sponsorship listing.
    Absent,
    /// A repository alias with its funding-links list.
    RepoLinks(Vec<RawLink>),
    /// An owner alias whose sponsorship listing is present.
    OwnerListed,
}

/// The mathematical value of an `AliasReply`.
pub enum AliasReplyV {
    Absent,
    RepoLinks(Seq<RawLinkV>),
    OwnerListed,
}

impl View for AliasReply {
    type V = AliasReplyV;

    open spec fn view(&self) -> AliasReplyV {
        match self {
            AliasReply::Absent => AliasReplyV::Absent,
            AliasReply::RepoLinks(v) => AliasReplyV::RepoLinks(raw_views(v@)),
            AliasReply::OwnerListed => AliasReplyV::OwnerListed,
        }
    }
}

/// The mathematical values of a reply vector.
pub open spec fn reply_views(s: Seq<AliasReply>) -> Seq<AliasReplyV> {
    s.map_values(|r: AliasReply| r@)
}

/// What the transport status means: 200 proceeds, 401 is the fixed
/// authentication error, anything else a protocol error naming the status.
pub open spec fn status_model(status: u16) -> Result<(), ErrorV> {
    if status == 200 {
        Ok(())
    } else if status == 401 {
        Err(ErrorV::InvalidToken)
    } else {
        Err(ErrorV::UnexpectedStatus(status))
    }
}

/// Validates the transport status of the response.
pub fn check_status(status: u16) -> (r: Result<(), FundError>)
    ensures
        ({
            let m = status_model(status);
            match r {
                Ok(_) => m is Ok,
                Err(e) => m is Err && e@ == m->Err_0,
            }
        }),
{
    if status == 200 {
        Ok(())
    } else if status == 401 {
        Err(FundError::InvalidToken)
    } else {
        Err(FundError::UnexpectedStatus(status))
    }
}

/// What one error entry means. An entry without a textual message, or
/// without a textual type, is malformed and fatal; `INSUFFICIENT_SCOPES` is
/// the fixed scope error; `NOT_FOUND` is recoverable and yields its message
/// as a warning; any other type is fatal with the entry's message.
pub open spec fn entry_class(e: ApiErrorEntryV) -> Result<Seq<char>, ErrorV> {
    match e.message {
        None => Err(ErrorV::MalformedResponse),
        Some(m) => match e.etype {
            None => Err(ErrorV::MalformedResponse),
            Some(t) => if t == ("INSUFFICIENT_SCOPES")@ {
                Err(ErrorV::InsufficientScopes)
            } else if t == ("NOT_FOUND")@ {
                Ok(m)
            } else {
                Err(ErrorV::ApiError(m))
            },
        },
    }
}

/// The classification of a whole error list: the warnings of its
/// `NOT_FOUND` entries in order, unless some entry is fatal — the first
/// fatal entry decides the error.
pub open spec fn classify_model(s: Seq<ApiErrorEntryV>) -> Result<Seq<Seq<char>>, ErrorV>
    decreases s.len(),
{
    if s.len() == 0 {
        Ok(Seq::empty())
    } else {
        match entry_class(s[0]) {
            Err(e) => Err(e),
            Ok(m) => match classify_model(s.drop_first()) {
                Err(e) => Err(e),
                Ok(rest) => Ok(seq![m] + rest),
            },
        }
    }
}

/// Appending one entry to a list that classified cleanly.
pub proof fn lemma_classify_snoc(s: Seq<ApiErrorEntryV>, e: ApiErrorEntryV)
    requires
        classify_model(s) is Ok,
    ensures
        classify_model(s.push(e)) == (match entry_class(e) {
            Err(err) => Err::<Seq<Seq<char>>, ErrorV>(err),
            Ok(m) => Ok(classify_model(s)->Ok_0.push(m)),
        }),
    decreases s.len(),
{
    if s.len() == 0 {
        assert(s.push(e)[0] == e);
        assert(s.push(e).drop_first() =~= Seq::<ApiErrorEntryV>::empty());
        if let Ok(m) = entry_class(e) {
            assert(classify_model(Seq::<ApiErrorEntryV>::empty()) == Ok::<Seq<Seq<char>>, ErrorV>(
                Seq::<Seq<char>>::empty(),
            ));
            assert(classify_model(s.push(e)) == Ok::<Seq<Seq<char>>, ErrorV>(
                seq![m] + Seq::<Seq<char>>::empty(),
            ));
            assert(seq![m] + Seq::<Seq<char>>::empty() =~= classify_model(s)->Ok_0.push(m));
        }
    } else {
        assert(s.push(e)[0] == s[0]);
        assert(s.push(e).drop_first() =~= s.drop_first().push(e));
        assert(entry_class(s[0]) is Ok);
        assert(classify_model(s.drop_first()) is Ok);
        lemma_classify_snoc(s.drop_first(), e);
        if let Ok(m) = entry_class(e) {
            let m0 = entry_class(s[0])->Ok_0;
            let rest = classify_model(s.drop_first())->Ok_0;
            assert(classify_model(s.push(e))->Ok_0 == seq![m0] + rest.push(m));
            assert(seq![m0] + rest.push(m) =~= (seq![m0] + rest).push(m));
        }
    }
}

/// Classifies the response's error list: `Ok` carries the `NOT_FOUND`
/// warnings in order; the first fatal entry aborts.
#[verifier::loop_isolation(false)]
pub fn classify_errors(errors: &Vec<ApiErrorEntry>) -> (r: Result<Vec<String>, FundError>)
    ensures
        ({
            let m = classify_model(err_views(errors@));
            match r {
                Ok(w) => m is Ok && w@.map_values(|t: String| t@) == m->Ok_0,
                Err(e) => m is Err && e@ == m->Err_0,
            }
        }),
{
    let ghost ev = err_views(errors@);
    let mut warnings: Vec<String> = Vec::new();
    let mut i: usize = 0;
    proof {
        assert(ev.take(0) =~= Seq::<ApiErrorEntryV>::empty());
        assert(warnings@.map_values(|t: String| t@) =~= Seq::<Seq<char>>::empty());
    }
    while i < errors.len()
        invariant
            i <= errors@.len(),
            classify_model(ev.take(i as int)) is Ok,
            warnings@.map_values(|t: String| t@) == classify_model(ev.take(i as int))->Ok_0,
        decreases errors@.len() - i,
    {
        proof {
            lemma_classify_snoc(ev.take(i as int), ev[i as int]);
            assert(ev.take(i as int).push(ev[i as int]) =~= ev.take(i + 1));
        }
        let e = &errors[i];
        proof {
            assert(e@ == ev[i as int]);
        }
        let message = match &e.message {
            Some(m) => m,
            None => {
                proof {
                    lemma_classify_prefix_err(ev, i as int);
                }
                return Err(FundError::MalformedResponse);
            },
        };
        let etype = match &e.etype {
            Some(t) => t,
            None => {
                proof {
                    lemma_classify_prefix_err(ev, i as int);
                }
                return Err(FundError::MalformedResponse);
            },
        };
        if str_eq(etype.as_str(), "INSUFFICIENT_SCOPES") {
            proof {
                lemma_classify_prefix_err(ev, i as int);
            }
            return Err(FundError::InsufficientScopes);
        }
        if str_eq(etype.as_str(), "NOT_FOUND") {
            let ghost wbefore = warnings@;
            warnings.push(message.clone());
            proof {
                assert(warnings@.map_values(|t: String| t@) =~= wbefore.map_values(
                    |t: String| t@,
                ).push(message@));
            }
        } else {
            proof {
                lemma_classify_prefix_err(ev, i as int);
            }
            return Err(FundError::ApiError(message.clone()));
        }
        i = i + 1;
    }
    proof {
        assert(ev.take(errors@.len() as int) =~= ev);
    }
    Ok(warnings)
}

/// A fatal entry after a clean prefix decides the whole classification.
pub proof fn lemma_classify_prefix_err(s: Seq<ApiErrorEntryV>, i: int)
    requires
        0 <= i < s.len(),
        classify_model(s.take(i)) is Ok,
        entry_class(s[i]) is Err,
    ensures
        classify_model(s) == Err::<Seq<Seq<char>>, ErrorV>(entry_class(s[i])->Err_0),
    decreases i,
{
    if i == 0 {
        assert(s[0] == s.take(0 as int + 1)[0] || true);
    } else {
        assert(s.take(i)[0] == s[0]);
        assert(entry_class(s[0]) is Ok);
        assert(classify_model(s.take(i).drop_first()) is Ok);
        assert(s.take(i).drop_first() =~= s.drop_first().take(i - 1));
        assert(s.drop_first()[i - 1] == s[i]);
        lemma_classify_prefix_err(s.drop_first(), i - 1);
    }
}

/// The error list a response body decodes to, a function of the body text
/// alone: nothing when the body is not JSON; an entry per element of the
/// top-level `errors` array, each keeping whatever shape it had; no entries
/// when the body has no such array.
pub uninterp spec fn errors_of(body: Seq<char>) -> Option<Seq<ApiErrorEntryV>>;

/// Relies on `serde_json::from_str::<Value>` and `Value::get`, `as_array`,
/// `as_str`: parsing and member lookup are functions of the body characters
/// alone, and every step reports failure instead of panicking.
#[verifier::external_body]
pub fn body_errors(body: &str) -> (r: Option<Vec<ApiErrorEntry>>)
    ensures
        (r is Some) == (errors_of(body@) is Some),
        r matches Some(v) ==> errors_of(body@) == Some(err_views(v@)),
{
    let doc: serde_json::Value = serde_json::from_str(body).ok()?;
    let arr = match doc.get("errors").and_then(|e| e.as_array()) {
        Some(a) => a,
        None => return Some(Vec::new()),
    };
    Some(arr.iter().map(|e| ApiErrorEntry {
        message: e.get("message").and_then(|m| m.as_str()).map(|s| s.to_string()),
        etype: e.get("type").and_then(|x| x.as_str()).map(|s| s.to_string()),
    }).collect())
}

/// The funding-links list a response body holds for one repository alias, a
/// function of the body text and the alias alone: nothing when the body is
/// not JSON or the alias's `fundingLinks` is not an array (an unknown or
/// private repository); else one raw link per element, shape unchecked.
pub uninterp spec fn repo_links_of(body: Seq<char>, alias: Seq<char>) -> Option<Seq<RawLinkV>>;

/// Relies on `serde_json::from_str::<Value>` and `Value::get`, `as_array`,
/// `as_str`: a function of the two inputs alone, failure reported at every
/// step.
#[verifier::external_body]
pub fn body_repo_links(body: &str, alias: &str) -> (r: Option<Vec<RawLink>>)
    ensures
        (r is Some) == (repo_links_of(body@, alias@) is Some),
        r matches Some(v) ==> repo_links_of(body@, alias@) == Some(raw_views(v@)),
{
    let doc: serde_json::Value = serde_json::from_str(body).ok()?;
    let arr = doc.get("data")?.get(alias)?.get("fundingLinks")?.as_array()?;
    Some(arr.iter().map(|l| RawLink {
        platform: l.get("platform").and_then(|p| p.as_str()).map(|s| s.to_string()),
        url: l.get("url").and_then(|u| u.as_str()).map(|s| s.to_string()),
    }).collect())
}

/// Whether a response body holds a non-null sponsorship listing for one
/// owner alias, a function of the body text and the alias alone; a body
/// that is not JSON, or an alias without the field, holds none.
pub uninterp spec fn owner_listed_of(body: Seq<char>, alias: Seq<char>) -> bool;

/// Relies on `serde_json::from_str::<Value>` and `Value::get`, `is_null`: a
/// function of the two inputs alone, failure reported at every step.
#[verifier::external_body]
pub fn body_owner_listed(body: &str, alias: &str) -> (r: bool)
    ensures
        r == owner_listed_of(body@, alias@),
{
    let doc: serde_json::Value = match serde_json::from_str(body) {
        Ok(d) => d,
        Err(_) => return false,
    };
    match doc.get("data").and_then(|d| d.get(alias)).and_then(|e| e.get("sponsorsListing")) {
        Some(l) => !l.is_null(),
        None => false,
    }
}

/// Whether the body parses as JSON at all: exactly when it has an error
/// list to classify.
pub open spec fn body_parses(body: Seq<char>) -> bool {
    errors_of(body) is Some
}

/// The reply the response body holds for the i-th alias: a repository
/// alias's funding-links list where the body carries one, an owner alias's
/// listing flag, and nothing otherwise.
pub open spec fn reply_model(body: Seq<char>, src: SourceV, i: int) -> AliasReplyV {
    match src {
        SourceV::Repo { .. } => match repo_links_of(body, crate::query::alias_str(i as nat)) {
            Some(raws) => AliasReplyV::RepoLinks(raws),
            None => AliasReplyV::Absent,
        },
        SourceV::Owner { .. } => if owner_listed_of(body, crate::query::alias_str(i as nat)) {
            AliasReplyV::OwnerListed
        } else {
            AliasReplyV::Absent
        },
    }
}

/// The replies of every alias of the source map, in alias order.
pub open spec fn replies_model(body: Seq<char>, entries: Seq<SourceEntryV>) -> Seq<AliasReplyV> {
    Seq::new(entries.len(), |i: int| reply_model(body, entries[i].source, i))
}

/// Reads each alias's payload out of the response body, in alias order:
/// the i-th source map entry was queried under the alias `_i`.
#[verifier::loop_isolation(false)]
pub fn decode_replies(body: &str, entries: &Vec<SourceEntry>) -> (r: Vec<AliasReply>)
    ensures
        reply_views(r@) == replies_model(body@, entry_views(entries@)),
{
    let ghost ev = entry_views(entries@);
    let mut out: Vec<AliasReply> = Vec::new();
    let mut i: usize = 0;
    while i < entries.len()
        invariant
            i <= entries@.len(),
            out@.len() == i,
            forall|j: int|
                0 <= j < i ==> #[trigger] reply_views(out@)[j] == reply_model(
                    body@,
                    ev[j].source,
                    j,
                ),
        decreases entries@.len() - i,
    {
        let mut alias = String::new();
        push_char(&mut alias, '_');
        let num = dec_of(i);
        alias.append(num.as_str());
        proof {
            assert(alias@ =~= crate::query::alias_str(i as nat));
        }
        let reply = match &entries[i].source {
            crate::source::GithubLinkSource::Repo { .. } => {
                match body_repo_links(body, alias.as_str()) {
                    Some(raws) => AliasReply::RepoLinks(raws),
                    None => AliasReply::Absent,
                }
            },
            crate::source::GithubLinkSource::Owner { .. } => {
                if body_owner_listed(body, alias.as_str()) {
                    AliasReply::OwnerListed
                } else {
                    AliasReply::Absent
                }
            },
        };
        proof {
            assert(reply@ == reply_model(body@, ev[i as int].source, i as int));
        }
        let ghost obefore = out@;
        out.push(reply);
        proof {
            assert(reply_views(out@) =~= reply_views(obefore).push(reply@));
        }
        i = i + 1;
    }
    proof {
        assert(reply_views(out@) =~= replies_model(body@, ev));
    }
    out
}

} // verus!

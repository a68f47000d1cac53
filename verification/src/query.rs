//! Builds the single batched GraphQL query. Every source gets one fragment
//! under a synthetic, counter-derived alias (owner and repository names may
//! hold characters that are invalid in query identifiers); the i-th entry of
//! the source map is aliased `_i`, which is the whole alias side table. One
//! final fragment asks for the remaining rate-limit budget.

use crate::source::{entry_views, SourceEntry, SourceEntryV, SourceV};
use crate::text::{dec_of, dec_str, push_char};
use vstd::prelude::*;

verus! {

/// The synthetic alias of the i-th source: an underscore and the counter.
pub open spec fn alias_str(i: nat) -> Seq<char> {
    seq!['_'] + dec_str(i)
}

/// Backslashes and double quotes escaped with a backslash.
pub open spec fn escaped(s: Seq<char>) -> Seq<char>
    decreases s.len(),
{
    if s.len() == 0 {
        s
    } else {
        let head = if s[0] == '"' || s[0] == '\\' {
            seq!['\\', s[0]]
        } else {
            seq![s[0]]
        };
        head + escaped(s.drop_first())
    }
}

/// A name as the query embeds it: quoted, with quotes and backslashes
/// escaped.
pub open spec fn quoted(s: Seq<char>) -> Seq<char> {
    seq!['"'] + escaped(s) + seq!['"']
}

pub proof fn lemma_escaped_snoc(s: Seq<char>, c: char)
    ensures
        escaped(s.push(c)) == escaped(s) + (if c == '"' || c == '\\' {
            seq!['\\', c]
        } else {
            seq![c]
        }),
    decreases s.len(),
{
    let tail = if c == '"' || c == '\\' {
        seq!['\\', c]
    } else {
        seq![c]
    };
    if s.len() == 0 {
        assert(s.push(c)[0] == c);
        assert(s.push(c).drop_first() =~= Seq::<char>::empty());
        assert(escaped(Seq::<char>::empty()) =~= Seq::<char>::empty());
        assert(escaped(s.push(c)) == tail + escaped(s.push(c).drop_first()));
        assert(escaped(s.push(c)) =~= tail);
        assert(escaped(s) =~= Seq::<char>::empty());
        assert(escaped(s) + tail =~= tail);
    } else {
        assert(s.push(c)[0] == s[0]);
        assert(s.push(c).drop_first() =~= s.drop_first().push(c));
        lemma_escaped_snoc(s.drop_first(), c);
        let head = if s[0] == '"' || s[0] == '\\' {
            seq!['\\', s[0]]
        } else {
            seq![s[0]]
        };
        assert(escaped(s.push(c)) == head + escaped(s.drop_first().push(c)));
        assert(head + (escaped(s.drop_first()) + tail) =~= (head + escaped(s.drop_first())) + tail);
    }
}

/// Appends `quoted(s)` to the output.
#[verifier::loop_isolation(false)]
fn quote_into(out: &mut String, s: &str)
    ensures
        final(out)@ == old(out)@ + quoted(s@),
{
    push_char(out, '"');
    let len = s.unicode_len();
    let mut i: usize = 0;
    proof {
        assert(escaped(s@.take(0)) =~= Seq::<char>::empty());
        assert(out@ =~= old(out)@ + seq!['"'] + escaped(s@.take(0)));
    }
    while i < len
        invariant
            i <= len,
            out@ == old(out)@ + seq!['"'] + escaped(s@.take(i as int)),
        decreases len - i,
    {
        let c = s.get_char(i);
        proof {
            lemma_escaped_snoc(s@.take(i as int), c);
            assert(s@.take(i as int).push(c) =~= s@.take(i + 1));
        }
        if c == '"' || c == '\\' {
            push_char(out, '\\');
            push_char(out, c);
            proof {
                assert(out@ =~= old(out)@ + seq!['"'] + escaped(s@.take(i + 1)));
            }
        } else {
            push_char(out, c);
            proof {
                assert(out@ =~= old(out)@ + seq!['"'] + escaped(s@.take(i + 1)));
            }
        }
        i = i + 1;
    }
    push_char(out, '"');
    proof {
        assert(s@.take(len as int) =~= s@);
        assert(out@ =~= old(out)@ + quoted(s@));
    }
}

/// The query fragment that asks for a repository's funding links.
pub open spec fn repo_fragment(i: nat, owner: Seq<char>, name: Seq<char>) -> Seq<char> {
    ("\n")@ + alias_str(i) + (": repository(owner: ")@ + quoted(owner) + (", name: ")@ + quoted(
        name,
    ) + (") {\n  fundingLinks {\n    platform\n    url\n  }\n}\n")@
}

/// The query fragment that asks whether an owner has a sponsorship listing,
/// under both owner kinds the forge exposes.
pub open spec fn owner_fragment(i: nat, owner: Seq<char>) -> Seq<char> {
    ("\n")@ + alias_str(i) + (": repositoryOwner(login: ")@ + quoted(owner) + (
    ") {\n  ... on Organization {\n    sponsorsListing {\n      id\n    }\n  }\n  ... on User {\n    sponsorsListing {\n      id\n    }\n  }\n}\n\n")@
}

/// The fragment the i-th source contributes.
pub open spec fn fragment_for(i: nat, s: SourceV) -> Seq<char> {
    match s {
        SourceV::Repo { owner, name } => repo_fragment(i, owner, name),
        SourceV::Owner { owner } => owner_fragment(i, owner),
    }
}

/// The fragments of the first `i` sources, in order.
pub open spec fn query_fragments(entries: Seq<SourceEntryV>, i: int) -> Seq<char>
    decreases i,
{
    if i <= 0 {
        Seq::empty()
    } else {
        query_fragments(entries, i - 1) + fragment_for((i - 1) as nat, entries[i - 1].source)
    }
}

/// The whole batched query: header, one fragment per source, and the
/// closing rate-limit fragment.
pub open spec fn query_text(entries: Seq<SourceEntryV>) -> Seq<char> {
    ("query FundingLinks {")@ + query_fragments(entries, entries.len() as int) + (
    "\n  rateLimit {\n    cost\n    remaining\n  }\n}\n")@
}

/// Builds the one outbound query for the whole source map, however many
/// sources and packages it holds.
#[verifier::loop_isolation(false)]
pub fn build_query(entries: &Vec<SourceEntry>) -> (q: String)
    ensures
        q@ == query_text(entry_views(entries@)),
{
    let ghost ev = entry_views(entries@);
    let mut q = String::from_str("query FundingLinks {");
    let mut i: usize = 0;
    proof {
        assert(q@ =~= ("query FundingLinks {")@ + query_fragments(ev, 0));
    }
    while i < entries.len()
        invariant
            i <= entries@.len(),
            q@ == ("query FundingLinks {")@ + query_fragments(ev, i as int),
        decreases entries@.len() - i,
    {
        let ghost qstart = q@;
        q.append("\n");
        push_char(&mut q, '_');
        let num = dec_of(i);
        q.append(num.as_str());
        proof {
            assert(q@ =~= qstart + ("\n")@ + alias_str(i as nat));
        }
        match &entries[i].source {
            crate::source::GithubLinkSource::Repo { owner, name } => {
                q.append(": repository(owner: ");
                quote_into(&mut q, owner.as_str());
                q.append(", name: ");
                quote_into(&mut q, name.as_str());
                q.append(") {\n  fundingLinks {\n    platform\n    url\n  }\n}\n");
                proof {
                    assert(ev[i as int].source == SourceV::Repo { owner: owner@, name: name@ });
                    assert(q@ =~= qstart + repo_fragment(i as nat, owner@, name@));
                }
            },
            crate::source::GithubLinkSource::Owner { owner } => {
                q.append(": repositoryOwner(login: ");
                quote_into(&mut q, owner.as_str());
                q.append(
                    ") {\n  ... on Organization {\n    sponsorsListing {\n      id\n    }\n  }\n  ... on User {\n    sponsorsListing {\n      id\n    }\n  }\n}\n\n",
                );
                proof {
                    assert(ev[i as int].source == SourceV::Owner { owner: owner@ });
                    assert(q@ =~= qstart + owner_fragment(i as nat, owner@));
                }
            },
        }
        proof {
            assert(q@ =~= ("query FundingLinks {")@ + query_fragments(ev, i + 1));
        }
        i = i + 1;
    }
    q.append("\n  rateLimit {\n    cost\n    remaining\n  }\n}\n");
    proof {
        assert(q@ =~= query_text(ev));
    }
    q
}

} // verus!

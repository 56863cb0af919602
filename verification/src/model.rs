//! The typed results the ranking service returns: one entry per domain, a
//! batch of entries, and the projection of a batch onto its first entry.

use vstd::prelude::*;
use vstd::std_specs::cmp::PartialEqSpec;
use crate::error::RankError;

verus! {

/// One domain's rank result, exactly as the service reports it.
#[derive(Debug)]
pub struct Response {
    /// Per-entry status code.
    pub status_code: u16,
    /// Error text for this entry; empty when the entry carries rank data.
    pub error: String,
    /// Non-negative rank position; zero when the domain is unranked.
    pub page_rank_integer: u32,
    /// The service's decimal score, held as the exact number text the wire
    /// carried (for example `"4.48"`); `"0"` when the domain is unranked.
    pub page_rank_decimal: String,
    /// Descriptive rank string; absent exactly when the service has no
    /// ranking data for the domain.
    pub rank: Option<String>,
    /// The normalized domain, as echoed by the service.
    pub domain: String,
}

/// The full result of one batch query: one entry per requested domain, in
/// request order.
#[derive(Debug)]
pub struct PageRank {
    /// Top-level status of the batch call.
    pub status_code: u16,
    /// One entry per requested domain, in request order.
    pub response: Vec<Response>,
    /// Timestamp supplied by the service, passed through unparsed.
    pub last_updated: String,
}

/// A batch result projected onto exactly one entry.
#[derive(Debug)]
pub struct PageRankFirst {
    /// Top-level status of the batch call, copied from the batch result.
    pub status_code: u16,
    /// The first entry of the batch result.
    pub response: Response,
    /// Timestamp of the batch result, copied verbatim.
    pub last_updated: String,
}

/// The mathematical content of one entry: every field as a plain value.
pub struct EntryView {
    pub status_code: u16,
    pub error: Seq<char>,
    pub page_rank_integer: u32,
    pub page_rank_decimal: Seq<char>,
    pub rank: Option<Seq<char>>,
    pub domain: Seq<char>,
}

/// The mathematical content of a batch result.
pub struct BatchView {
    pub status_code: u16,
    pub response: Seq<EntryView>,
    pub last_updated: Seq<char>,
}

impl View for Response {
    type V = EntryView;

    open spec fn view(&self) -> EntryView {
        EntryView {
            status_code: self.status_code,
            error: self.error@,
            page_rank_integer: self.page_rank_integer,
            page_rank_decimal: self.page_rank_decimal@,
            rank: match self.rank {
                Some(r) => Some(r@),
                None => None,
            },
            domain: self.domain@,
        }
    }
}

/// The contents of a list of entries, entry by entry.
pub open spec fn views_of_entries(entries: Seq<Response>) -> Seq<EntryView> {
    entries.map_values(|e: Response| e@)
}

impl View for PageRank {
    type V = BatchView;

    open spec fn view(&self) -> BatchView {
        BatchView {
            status_code: self.status_code,
            response: views_of_entries(self.response@),
            last_updated: self.last_updated@,
        }
    }
}

impl Clone for Response {
    fn clone(&self) -> (r: Self)
        ensures
            r == *self,
    {
        Response {
            status_code: self.status_code,
            error: self.error.clone(),
            page_rank_integer: self.page_rank_integer,
            page_rank_decimal: self.page_rank_decimal.clone(),
            rank: match &self.rank {
                Some(rank) => Some(rank.clone()),
                None => None,
            },
            domain: self.domain.clone(),
        }
    }
}

impl PartialEq for Response {
    fn eq(&self, other: &Self) -> (r: bool) {
        self.status_code == other.status_code && self.error == other.error
            && self.page_rank_integer == other.page_rank_integer
            && self.page_rank_decimal == other.page_rank_decimal
            && match (&self.rank, &other.rank) {
                (Some(a), Some(b)) => *a == *b,
                (None, None) => true,
                _ => false,
            } && self.domain == other.domain
    }
}

impl vstd::std_specs::cmp::PartialEqSpecImpl for Response {
    open spec fn obeys_eq_spec() -> bool {
        true
    }

    open spec fn eq_spec(&self, other: &Self) -> bool {
        &&& self.status_code == other.status_code
        &&& self.error@ == other.error@
        &&& self.page_rank_integer == other.page_rank_integer
        &&& self.page_rank_decimal@ == other.page_rank_decimal@
        &&& match (self.rank, other.rank) {
            (Some(a), Some(b)) => a@ == b@,
            (None, None) => true,
            _ => false,
        }
        &&& self.domain@ == other.domain@
    }
}

impl Clone for PageRank {
    fn clone(&self) -> (r: Self)
        ensures
            r.status_code == self.status_code,
            r.response@ == self.response@,
            r.last_updated == self.last_updated,
    {
        PageRank {
            status_code: self.status_code,
            response: clone_responses(&self.response),
            last_updated: self.last_updated.clone(),
        }
    }
}

impl PartialEq for PageRank {
    fn eq(&self, other: &Self) -> (r: bool) {
        self.status_code == other.status_code && self.response == other.response
            && self.last_updated == other.last_updated
    }
}

impl vstd::std_specs::cmp::PartialEqSpecImpl for PageRank {
    open spec fn obeys_eq_spec() -> bool {
        true
    }

    open spec fn eq_spec(&self, other: &Self) -> bool {
        &&& self.status_code == other.status_code
        &&& vstd::std_specs::cmp::PartialEqSpec::eq_spec(&self.response, &other.response)
        &&& self.last_updated@ == other.last_updated@
    }
}

impl Clone for PageRankFirst {
    fn clone(&self) -> (r: Self)
        ensures
            r == *self,
    {
        PageRankFirst {
            status_code: self.status_code,
            response: self.response.clone(),
            last_updated: self.last_updated.clone(),
        }
    }
}

impl PartialEq for PageRankFirst {
    fn eq(&self, other: &Self) -> (r: bool) {
        self.status_code == other.status_code && self.response == other.response
            && self.last_updated == other.last_updated
    }
}

impl vstd::std_specs::cmp::PartialEqSpecImpl for PageRankFirst {
    open spec fn obeys_eq_spec() -> bool {
        true
    }

    open spec fn eq_spec(&self, other: &Self) -> bool {
        &&& self.status_code == other.status_code
        &&& vstd::std_specs::cmp::PartialEqSpec::eq_spec(&self.response, &other.response)
        &&& self.last_updated@ == other.last_updated@
    }
}

/// An element-for-element copy of a list of entries.
fn clone_responses(responses: &Vec<Response>) -> (r: Vec<Response>)
    ensures
        r@ == responses@,
{
    let mut out: Vec<Response> = Vec::new();
    let mut i: usize = 0;
    while i < responses.len()
        invariant
            i <= responses@.len(),
            out@ == responses@.subrange(0, i as int),
        decreases responses@.len() - i,
    {
        out.push(responses[i].clone());
        proof {
            assert(out@ =~= responses@.subrange(0, i + 1));
        }
        i = i + 1;
    }
    proof {
        assert(responses@.subrange(0, responses@.len() as int) =~= responses@);
    }
    out
}

impl PageRank {
    /// The top-level status code of the batch call.
    pub fn status_code(&self) -> (r: u16)
        ensures
            r == self.status_code,
    {
        self.status_code
    }

    /// The timestamp the service attached to the batch result.
    pub fn last_updated(&self) -> (r: String)
        ensures
            r == self.last_updated,
    {
        self.last_updated.clone()
    }

    /// A copy of the per-domain entries, in request order.
    pub fn response(&self) -> (r: Vec<Response>)
        ensures
            r@ == self.response@,
    {
        clone_responses(&self.response)
    }

    /// Projects a batch result onto its first entry, copying the top-level
    /// status code and timestamp along with it.  Fails exactly when the
    /// batch holds no entries.
    pub fn try_into_first(self) -> (r: Result<PageRankFirst, RankError>)
        ensures
            self.response@.len() == 0 ==> r == Err::<PageRankFirst, RankError>(
                RankError::NoResponse,
            ),
            self.response@.len() > 0 ==> r == Ok::<PageRankFirst, RankError>(
                (PageRankFirst {
                    status_code: self.status_code,
                    response: self.response@[0],
                    last_updated: self.last_updated,
                }),
            ),
    {
        let PageRank { status_code, mut response, last_updated } = self;
        if response.len() == 0 {
            Err(RankError::NoResponse)
        } else {
            let first = response.remove(0);
            Ok(PageRankFirst { status_code, response: first, last_updated })
        }
    }
}

} // verus!

use vstd::prelude::*;
use vstd::string::StringExecFns;

use crate::order::{sort_keys, sorted_keys, views};
use crate::pattern::{
    decompose, first_marker, has_marker, lemma_first_marker_unique, opt_view, pattern_prefix,
    pattern_suffix, DecomposedPattern,
};

verus! {

/// The delimiter that groups keys into common prefixes in every listing.
pub const DELIMITER: char = '/';

/// Why a resolution ended without keys.
#[derive(Debug, Clone, Copy, PartialEq, Eq, Structural)]
pub enum ResolveError {
    /// A pattern holds no wildcard marker.
    MalformedPattern,
    /// The listing service failed on some page.
    ListingFailure,
}

/// One page of a listing, as the listing service returned it.
#[derive(Debug, Clone)]
pub struct ListingPage {
    /// The keys directly under the prefix, in the service's order.
    pub keys: Vec<String>,
    /// The common sub-prefixes, each ending at the next delimiter.
    pub common_prefixes: Vec<String>,
    /// Where the next page starts; `None` on the last page.
    pub next_token: Option<String>,
}

/// A listing call that the caller is to make.
#[derive(Debug, Clone)]
pub struct ListRequest {
    pub bucket: String,
    pub prefix: String,
    pub delimiter: char,
    pub continuation_token: Option<String>,
}

/// What the caller does next.
#[derive(Debug)]
pub enum Step {
    /// Make this listing call and hand its page, or its failure, back.
    List(ListRequest),
    /// The resolution is complete: every matched key, in key order.
    Done(Vec<String>),
    /// The resolution failed; no keys are returned.
    Failed(ResolveError),
}

/// The keys that one listing page contributes: every direct key, then,
/// where the pattern has a suffix, each common prefix with the suffix
/// appended.
pub open spec fn page_matches(page: ListingPage, suffix: Option<Seq<char>>) -> Seq<Seq<char>> {
    views(page.keys@) + match suffix {
        Some(s) => views(page.common_prefixes@).map_values(|cp: Seq<char>| cp + s),
        None => Seq::empty(),
    }
}

/// Whether `step` asks for a listing of `prefix` in `bucket`, from the
/// continuation point `token`.
pub open spec fn requests(
    step: Step,
    bucket: Seq<char>,
    prefix: Seq<char>,
    token: Option<Seq<char>>,
) -> bool {
    match step {
        Step::List(q) => {
            &&& q.bucket@ == bucket
            &&& q.prefix@ == prefix
            &&& q.delimiter == DELIMITER
            &&& opt_view(q.continuation_token) == token
        },
        _ => false,
    }
}

/// The abstract state of a resolution.
pub ghost struct ResolverView {
    pub bucket: Seq<char>,
    pub patterns: Seq<Seq<char>>,
    /// The pattern being listed.
    pub current: int,
    /// The keys matched so far, in the order they were found.
    pub found: Seq<Seq<char>>,
    /// Whether a listing call is outstanding.
    pub listing: bool,
}

/// The resolution of a list of patterns, one listing page at a time.
pub struct Resolver {
    bucket: String,
    patterns: Vec<String>,
    current: usize,
    split: Option<DecomposedPattern>,
    found: Vec<String>,
}

impl View for Resolver {
    type V = ResolverView;

    closed spec fn view(&self) -> ResolverView {
        ResolverView {
            bucket: self.bucket@,
            patterns: views(self.patterns@),
            current: self.current as int,
            found: views(self.found@),
            listing: self.split is Some,
        }
    }
}

/// Whether `r` and `step` are what moving on to pattern `k` with the keys
/// `found` gives: the sorted keys once every pattern is done, a failure at a
/// pattern without marker (before any listing of it), else the first
/// listing call for pattern `k`.
pub open spec fn entered(
    r: ResolverView,
    bucket: Seq<char>,
    patterns: Seq<Seq<char>>,
    k: int,
    found: Seq<Seq<char>>,
    step: Step,
) -> bool {
    &&& r.bucket == bucket
    &&& r.patterns == patterns
    &&& if k == patterns.len() {
        &&& !r.listing
        &&& step matches Step::Done(keys) && views(keys@) == sorted_keys(found)
    } else if !has_marker(patterns[k]) {
        &&& !r.listing
        &&& step matches Step::Failed(ResolveError::MalformedPattern)
    } else {
        &&& r.listing
        &&& r.current == k
        &&& r.found == found
        &&& requests(step, bucket, pattern_prefix(patterns[k]), None)
    }
}

/// A pattern without marker ends the resolution with `MalformedPattern`
/// as soon as it is reached, and no listing call is made for it.
pub proof fn lemma_malformed_pattern_fails_unlisted(
    r: ResolverView,
    bucket: Seq<char>,
    patterns: Seq<Seq<char>>,
    k: int,
    found: Seq<Seq<char>>,
    step: Step,
)
    requires
        0 <= k < patterns.len(),
        !has_marker(patterns[k]),
        entered(r, bucket, patterns, k, found, step),
    ensures
        step matches Step::Failed(ResolveError::MalformedPattern),
        !(step is List),
        !r.listing,
{
}

/// For a pattern whose only marker is its last character, the listing is
/// scoped to everything before the marker and each page contributes its
/// direct keys alone: common prefixes are not expanded.
pub proof fn lemma_trailing_marker_takes_direct_keys(p: Seq<char>, page: ListingPage)
    requires
        first_marker(p, p.len() - 1),
    ensures
        pattern_prefix(p) == p.drop_last(),
        pattern_suffix(p) is None,
        page_matches(page, pattern_suffix(p)) == views(page.keys@),
{
    lemma_first_marker_unique(p, p.len() - 1);
    assert(page_matches(page, pattern_suffix(p)) =~= views(page.keys@));
}

impl Resolver {
    /// The state's internal consistency.
    pub closed spec fn wf(&self) -> bool {
        match self.split {
            Some(d) => {
                &&& self.current < self.patterns.len()
                &&& has_marker(self@.patterns[self.current as int])
                &&& d.of(self@.patterns[self.current as int])
            },
            None => self.current <= self.patterns.len(),
        }
    }

    /// Moves on to pattern `k`, keeping the keys found so far.
    fn enter(&mut self, k: usize) -> (step: Step)
        requires
            k <= old(self).patterns.len(),
        ensures
            final(self).wf(),
            entered(final(self)@, old(self)@.bucket, old(self)@.patterns, k as int, old(self)@.found, step),
    {
        self.current = k;
        if k == self.patterns.len() {
            self.split = None;
            let mut found: Vec<String> = Vec::new();
            std::mem::swap(&mut found, &mut self.found);
            return Step::Done(sort_keys(found));
        }
        match decompose(self.patterns[k].as_str()) {
            None => {
                self.split = None;
                Step::Failed(ResolveError::MalformedPattern)
            },
            Some(d) => {
                let request = ListRequest {
                    bucket: self.bucket.clone(),
                    prefix: d.prefix.clone(),
                    delimiter: DELIMITER,
                    continuation_token: None,
                };
                self.split = Some(d);
                Step::List(request)
            },
        }
    }

    /// Starts resolving `patterns`, in their order, against `bucket`.
    pub fn start(bucket: String, patterns: Vec<String>) -> (r: (Resolver, Step))
        ensures
            r.0.wf(),
            entered(r.0@, bucket@, views(patterns@), 0, Seq::empty(), r.1),
    {
        let mut resolver = Resolver {
            bucket,
            patterns,
            current: 0,
            split: None,
            found: Vec::new(),
        };
        proof {
            assert(resolver@.found =~= Seq::<Seq<char>>::empty());
        }
        let step = resolver.enter(0);
        (resolver, step)
    }

    /// Takes in the page that the outstanding listing call returned: its
    /// matches are added, then the listing goes on where the page says more
    /// follow, else the next pattern is entered.
    pub fn on_page(&mut self, page: ListingPage) -> (step: Step)
        requires
            old(self).wf(),
            old(self)@.listing,
        ensures
            final(self).wf(),
            ({
                let v = old(self)@;
                let p = v.patterns[v.current];
                let found = v.found + page_matches(page, pattern_suffix(p));
                match page.next_token {
                    Some(t) => {
                        &&& final(self)@ == ResolverView { found, ..v }
                        &&& requests(step, v.bucket, pattern_prefix(p), Some(t@))
                    },
                    None => entered(final(self)@, v.bucket, v.patterns, v.current + 1, found, step),
                }
            }),
    {
        let ghost v = self@;
        let mut found: Vec<String> = Vec::new();
        std::mem::swap(&mut found, &mut self.found);
        let ghost start = found@;
        let split = self.split.as_ref().unwrap();
        let mut i: usize = 0;
        while i < page.keys.len()
            invariant
                i <= page.keys.len(),
                views(found@) == views(start) + views(page.keys@).take(i as int),
            decreases page.keys.len() - i,
        {
            let ghost before = found@;
            found.push(page.keys[i].clone());
            proof {
                assert(views(found@) =~= views(before).push(page.keys@[i as int]@));
                assert(views(page.keys@).take(i + 1) =~= views(page.keys@).take(i as int).push(
                    page.keys@[i as int]@,
                ));
            }
            i = i + 1;
        }
        proof {
            assert(views(page.keys@).take(i as int) =~= views(page.keys@));
        }
        let ghost direct = found@;
        match &split.suffix {
            Some(suffix) => {
                let mut j: usize = 0;
                while j < page.common_prefixes.len()
                    invariant
                        j <= page.common_prefixes.len(),
                        views(found@) == views(direct) + views(page.common_prefixes@).map_values(
                            |cp: Seq<char>| cp + suffix@,
                        ).take(j as int),
                    decreases page.common_prefixes.len() - j,
                {
                    let mut full = page.common_prefixes[j].clone();
                    full.append(suffix.as_str());
                    let ghost before = found@;
                    found.push(full);
                    proof {
                        assert(views(found@) =~= views(before).push(
                            page.common_prefixes@[j as int]@ + suffix@,
                        ));
                        let m = views(page.common_prefixes@).map_values(|cp: Seq<char>| cp + suffix@);
                        assert(m.take(j + 1) =~= m.take(j as int).push(m[j as int]));
                    }
                    j = j + 1;
                }
                proof {
                    let m = views(page.common_prefixes@).map_values(|cp: Seq<char>| cp + suffix@);
                    assert(m.take(j as int) =~= m);
                }
            },
            None => {},
        }
        assert(views(found@) =~= v.found + page_matches(page, pattern_suffix(v.patterns[v.current])));
        self.found = found;
        match page.next_token {
            Some(token) => {
                Step::List(ListRequest {
                    bucket: self.bucket.clone(),
                    prefix: split.prefix.clone(),
                    delimiter: DELIMITER,
                    continuation_token: Some(token),
                })
            },
            None => {
                let next = self.current + 1;
                self.enter(next)
            },
        }
    }

    /// Takes in the failure of the outstanding listing call: the whole
    /// resolution fails, and the keys found so far are dropped.
    pub fn on_failure(&mut self) -> (step: Step)
        requires
            old(self).wf(),
            old(self)@.listing,
        ensures
            final(self).wf(),
            !final(self)@.listing,
            final(self)@.found.len() == 0,
            final(self)@.bucket == old(self)@.bucket,
            final(self)@.patterns == old(self)@.patterns,
            step matches Step::Failed(ResolveError::ListingFailure),
    {
        self.split = None;
        self.found = Vec::new();
        Step::Failed(ResolveError::ListingFailure)
    }

    /// Whether a listing call is outstanding, so that a page or a failure
    /// is expected next.
    pub fn is_listing(&self) -> (r: bool)
        ensures
            r == self@.listing,
    {
        self.split.is_some()
    }

    /// How many keys have been matched so far.
    pub fn matched(&self) -> (r: usize)
        ensures
            r == self@.found.len(),
    {
        self.found.len()
    }
}

} // verus!

//! Deciding from an operation's tags whether an agent schedules it, and how
//! often.
//!
//! An operation that carries an excluded tag is dropped. Otherwise it runs
//! at the shortest interval among the included tags it carries, and is
//! dropped if it carries none.

use crate::operation::string_views;
use vstd::prelude::*;

verus! {

/// What an [`IncludeTag`] holds.
pub struct IncludeTagView {
    pub tag: Seq<char>,
    pub interval: i64,
}

/// A tag that selects operations, with the interval in seconds at which
/// operations carrying it are run.
#[derive(Debug)]
pub struct IncludeTag {
    pub tag: String,
    pub interval: i64,
}

impl View for IncludeTag {
    type V = IncludeTagView;

    open spec fn view(&self) -> IncludeTagView {
        IncludeTagView { tag: self.tag@, interval: self.interval }
    }
}

/// What a [`TagFilter`] holds.
pub struct TagFilterView {
    pub included: Seq<IncludeTagView>,
    pub excluded: Seq<Seq<char>>,
}

/// An agent's tag configuration: the included tags with their intervals,
/// all positive, and the excluded tags.
#[derive(Debug)]
pub struct TagFilter {
    included: Vec<IncludeTag>,
    excluded: Vec<String>,
}

/// Whether some tag of `tags` is one of `excluded`.
pub open spec fn carries_excluded(tags: Seq<Seq<char>>, excluded: Seq<Seq<char>>) -> bool {
    exists|i: int| 0 <= i < tags.len() && excluded.contains(#[trigger] tags[i])
}

/// Whether the `index`-th included tag is carried by `tags`.
pub open spec fn selects(tags: Seq<Seq<char>>, included: Seq<IncludeTagView>, index: int) -> bool {
    0 <= index < included.len() && tags.contains(included[index].tag)
}

/// Whether `interval` is the least interval among the included tags that
/// `tags` carries.
pub open spec fn least_selected(
    tags: Seq<Seq<char>>,
    included: Seq<IncludeTagView>,
    interval: i64,
) -> bool {
    &&& exists|k: int| #[trigger] selects(tags, included, k) && included[k].interval == interval
    &&& forall|k: int| #[trigger] selects(tags, included, k) ==> interval <= included[k].interval
}

/// The interval at which an operation with `tags` runs under `filter`, or
/// `None` where the operation is dropped.
pub open spec fn derived_interval(tags: Seq<Seq<char>>, filter: TagFilterView) -> Option<i64> {
    if carries_excluded(tags, filter.excluded) {
        None
    } else if exists|m: i64| least_selected(tags, filter.included, m) {
        Some(choose|m: i64| least_selected(tags, filter.included, m))
    } else {
        None
    }
}

/// Whether every included tag of `filter` has a positive interval.
pub open spec fn intervals_positive(filter: TagFilterView) -> bool {
    forall|k: int| 0 <= k < filter.included.len() ==> #[trigger] filter.included[k].interval > 0
}

/// The views of a sequence of included tags.
pub open spec fn include_views(included: Seq<IncludeTag>) -> Seq<IncludeTagView> {
    Seq::new(included.len(), |i: int| included[i]@)
}

/// An operation with an excluded tag is dropped whatever else it carries;
/// one without any included tag is dropped; any other runs at the least
/// interval among the included tags it carries.
pub proof fn lemma_tag_filtering(tags: Seq<Seq<char>>, filter: TagFilterView)
    ensures
        carries_excluded(tags, filter.excluded) ==> derived_interval(tags, filter) is None,
        (forall|k: int| !selects(tags, filter.included, k)) ==> derived_interval(tags, filter)
            is None,
        !carries_excluded(tags, filter.excluded) && (exists|k: int|
            selects(tags, filter.included, k)) ==> derived_interval(tags, filter) is Some
            && least_selected(tags, filter.included, derived_interval(tags, filter)->0),
{
    let included = filter.included;
    if exists|k: int| selects(tags, included, k) {
        let k = choose|k: int| selects(tags, included, k);
        let m = lemma_least_exists(tags, included, included.len() as int, k);
        assert(least_selected(tags, included, m));
    }
}

/// Whether `interval` is the least interval among those of the first `count`
/// included tags that `tags` carries.
spec fn least_among(
    tags: Seq<Seq<char>>,
    included: Seq<IncludeTagView>,
    count: int,
    interval: i64,
) -> bool {
    &&& exists|k: int|
        k < count && #[trigger] selects(tags, included, k) && included[k].interval == interval
    &&& forall|k: int|
        k < count && #[trigger] selects(tags, included, k) ==> interval <= included[k].interval
}

/// Where `tags` carries one of the first `count` included tags, one of
/// those carried has the least interval.
proof fn lemma_least_exists(
    tags: Seq<Seq<char>>,
    included: Seq<IncludeTagView>,
    count: int,
    witness: int,
) -> (least: i64)
    requires
        0 <= count <= included.len(),
        witness < count,
        selects(tags, included, witness),
    ensures
        least_among(tags, included, count, least),
    decreases count,
{
    if exists|k: int| k < count - 1 && selects(tags, included, k) {
        let k = choose|k: int| k < count - 1 && selects(tags, included, k);
        let m = lemma_least_exists(tags, included, count - 1, k);
        let w = choose|w: int|
            w < count - 1 && #[trigger] selects(tags, included, w) && included[w].interval == m;
        if selects(tags, included, count - 1) && included[count - 1].interval < m {
            included[count - 1].interval
        } else {
            assert(selects(tags, included, w) && w < count);
            m
        }
    } else {
        assert(witness == count - 1);
        included[count - 1].interval
    }
}

impl View for TagFilter {
    type V = TagFilterView;

    closed spec fn view(&self) -> TagFilterView {
        TagFilterView { included: include_views(self.included@), excluded: string_views(self.excluded@) }
    }
}

/// Whether `tag` is one of `tags`.
fn carries(tags: &Vec<String>, tag: &String) -> (found: bool)
    ensures
        found == string_views(tags@).contains(tag@),
{
    let mut i: usize = 0;
    while i < tags.len()
        invariant
            i <= tags.len(),
            forall|j: int| 0 <= j < i ==> tags[j]@ != tag@,
        decreases tags.len() - i,
    {
        if tags[i] == *tag {
            assert(string_views(tags@)[i as int] == tag@);
            return true;
        }
        i += 1;
    }
    assert forall|j: int| 0 <= j < tags.len() implies string_views(tags@)[j] != tag@ by {}
    false
}

impl TagFilter {
    /// Whether every included interval is positive, as every filter's is.
    pub open spec fn wf(&self) -> bool {
        intervals_positive(self@)
    }

    /// Makes a filter of the included tags with their intervals and the
    /// excluded tags; `None` if and only if some interval is not positive.
    pub fn new(included: Vec<IncludeTag>, excluded: Vec<String>) -> (filter: Option<TagFilter>)
        ensures
            match filter {
                Some(filter) => {
                    &&& filter.wf()
                    &&& filter@.included == include_views(included@)
                    &&& filter@.excluded == string_views(excluded@)
                },
                None => exists|k: int| 0 <= k < included.len() && included[k].interval <= 0,
            },
    {
        let mut k: usize = 0;
        while k < included.len()
            invariant
                k <= included.len(),
                forall|j: int| 0 <= j < k ==> included[j].interval > 0,
            decreases included.len() - k,
        {
            if included[k].interval <= 0 {
                return None;
            }
            k += 1;
        }
        Some(TagFilter { included, excluded })
    }

    /// Derives the interval at which an operation with `tags` runs, or
    /// `None` where the operation is dropped.
    pub fn interval_for(&self, tags: &Vec<String>) -> (interval: Option<i64>)
        ensures
            interval == derived_interval(string_views(tags@), self@),
            match interval {
                Some(least) => !carries_excluded(string_views(tags@), self@.excluded)
                    && least_selected(string_views(tags@), self@.included, least),
                None => carries_excluded(string_views(tags@), self@.excluded) || forall|k: int|
                    !selects(string_views(tags@), self@.included, k),
            },
    {
        let ghost tag_views = string_views(tags@);
        let ghost included = self@.included;
        let mut i: usize = 0;
        while i < tags.len()
            invariant
                i <= tags.len(),
                tag_views == string_views(tags@),
                forall|j: int| 0 <= j < i ==> !self@.excluded.contains(#[trigger] tag_views[j]),
            decreases tags.len() - i,
        {
            if carries(&self.excluded, &tags[i]) {
                assert(tag_views[i as int] == tags[i as int]@);
                return None;
            }
            i += 1;
        }
        assert(!carries_excluded(tag_views, self@.excluded));
        let mut best: Option<i64> = None;
        let mut k: usize = 0;
        while k < self.included.len()
            invariant
                k <= self.included.len(),
                tag_views == string_views(tags@),
                included == self@.included,
                included == include_views(self.included@),
                best is None ==> forall|j: int| j < k ==> !selects(tag_views, included, j),
                best matches Some(m) ==> {
                    &&& exists|j: int| j < k && #[trigger] selects(tag_views, included, j)
                        && included[j].interval == m
                    &&& forall|j: int|
                        j < k && #[trigger] selects(tag_views, included, j) ==> m
                            <= included[j].interval
                },
            decreases self.included.len() - k,
        {
            let candidate = &self.included[k];
            assert(included[k as int] == candidate@);
            if carries(tags, &candidate.tag) {
                assert(selects(tag_views, included, k as int));
                best = match best {
                    None => Some(candidate.interval),
                    Some(m) => if candidate.interval < m {
                        Some(candidate.interval)
                    } else {
                        Some(m)
                    },
                };
            }
            k += 1;
        }
        proof {
            match best {
                Some(m) => {
                    assert(least_selected(tag_views, included, m));
                    let chosen = choose|c: i64| least_selected(tag_views, included, c);
                    lemma_least_unique(tag_views, included, m, chosen);
                },
                None => {
                    assert forall|m: i64| !least_selected(tag_views, included, m) by {}
                },
            }
        }
        best
    }
}

/// A derived interval is the interval of an included tag, and so positive
/// where those all are.
pub proof fn lemma_derived_interval_positive(tags: Seq<Seq<char>>, filter: TagFilterView)
    requires
        intervals_positive(filter),
        derived_interval(tags, filter) is Some,
    ensures
        derived_interval(tags, filter)->0 > 0,
{
    let m = derived_interval(tags, filter)->0;
    assert(least_selected(tags, filter.included, m));
    let k = choose|k: int| #[trigger]
        selects(tags, filter.included, k) && filter.included[k].interval == m;
    assert(filter.included[k].interval > 0);
}

/// Two intervals that are each the least selected are the same interval.
pub proof fn lemma_least_unique(tags: Seq<Seq<char>>, included: Seq<IncludeTagView>, a: i64, b: i64)
    requires
        least_selected(tags, included, a),
        least_selected(tags, included, b),
    ensures
        a == b,
{
    let ka = choose|k: int| #[trigger] selects(tags, included, k) && included[k].interval == a;
    let kb = choose|k: int| #[trigger] selects(tags, included, k) && included[k].interval == b;
    assert(selects(tags, included, ka));
    assert(selects(tags, included, kb));
}

} // verus!

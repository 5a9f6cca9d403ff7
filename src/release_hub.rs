use vstd::prelude::*;
use vstd::utf8::encode_utf8;

use crate::date::{parse_datetime, parsed_datetime, DateTime};
use crate::error::BisectError;
use crate::track::{lemma_name_le_total, lemma_name_le_trans, name_le};

verus! {

/// The first layout in which release tags carry their timestamp.
pub const TAG_LAYOUT_COMPACT: &'static str = "cdda-experimental-%Y-%m-%d-%H%M";

/// The second layout in which release tags carry their timestamp.
pub const TAG_LAYOUT_DASHED: &'static str = "cdda-experimental-%Y-%m-%d-%H-%M";

/// The timestamp that a tag name encodes, read in the compact layout first.
pub open spec fn tag_time(name: Seq<char>) -> Option<DateTime> {
    match parsed_datetime(name, TAG_LAYOUT_COMPACT@) {
        Some(t) => Some(t),
        None => parsed_datetime(name, TAG_LAYOUT_DASHED@),
    }
}

/// One candidate release, identified by its tag name.
#[derive(PartialOrd, Ord, PartialEq, Eq, Hash, Debug, Clone)]
pub struct GitTag {
    pub name: String,
}

impl GitTag {
    /// The timestamp encoded in the tag's name, if it has one.
    pub fn try_tag_datetime(&self) -> (r: Option<DateTime>)
        ensures
            r == tag_time(self.name@),
            r matches Some(t) ==> t.wf(),
    {
        match parse_datetime(self.name.as_str(), TAG_LAYOUT_COMPACT) {
            Some(t) => Some(t),
            None => parse_datetime(self.name.as_str(), TAG_LAYOUT_DASHED),
        }
    }

    /// The timestamp encoded in the tag's name, for a name that has one.
    pub fn tag_datetime(&self) -> (r: DateTime)
        requires
            tag_time(self.name@) is Some,
        ensures
            tag_time(self.name@) == Some(r),
            r.wf(),
    {
        match self.try_tag_datetime() {
            Some(t) => t,
            None => {
                assert(false);
                DateTime { date: crate::date::Date { year: 0, month: 1, day: 1 }, hour: 0, minute: 0 }
            },
        }
    }
}

/// Whether `name` is one of the names in `list`.
pub open spec fn listed(list: Seq<String>, name: Seq<char>) -> bool {
    exists|i: int| 0 <= i < list.len() && #[trigger] list[i]@ == name
}

/// Whether a raw tag enters the catalog: its name has a timestamp and is not blacklisted.
pub open spec fn admitted(blacklist: Seq<String>, t: GitTag) -> bool {
    tag_time(t.name@) is Some && !listed(blacklist, t.name@)
}

/// The first position in `tags` that holds `name`.
pub open spec fn is_first_position(tags: Seq<GitTag>, name: Seq<char>, i: int) -> bool {
    0 <= i < tags.len() && tags[i].name@ == name && forall|j: int|
        0 <= j < i ==> #[trigger] tags[j].name@ != name
}

/// The position of `name` in `tags`, if it occurs there.
pub open spec fn position_in(tags: Seq<GitTag>, name: Seq<char>) -> Option<int> {
    if exists|i: int| is_first_position(tags, name, i) {
        Some(choose|i: int| is_first_position(tags, name, i))
    } else {
        None
    }
}

/// The first position of a name is the one that `position_in` gives.
pub proof fn lemma_first_position_unique(tags: Seq<GitTag>, name: Seq<char>, i: int)
    requires
        is_first_position(tags, name, i),
    ensures
        position_in(tags, name) == Some(i),
{
    let c = choose|k: int| is_first_position(tags, name, k);
    assert(is_first_position(tags, name, c));
    if c < i {
        assert(tags[c].name@ != name);
    } else if i < c {
        assert(tags[i].name@ != name);
    }
}

/// Whether the tags run from the greatest name to the least.
pub open spec fn newest_first(tags: Seq<GitTag>) -> bool {
    forall|i: int, j: int|
        0 <= i < j < tags.len() ==> name_le(#[trigger] tags[j].name@, #[trigger] tags[i].name@)
}

/// Relies on std's `slice::sort_by` with `String`'s `cmp` reversed: the same tags,
/// reordered so that names run from greatest to least in byte-wise order.
#[verifier::external_body]
fn sort_newest_first(tags: &mut Vec<GitTag>)
    ensures
        final(tags)@.to_multiset() == old(tags)@.to_multiset(),
        newest_first(final(tags)@),
{
    tags.sort_by(|a, b| b.name.cmp(&a.name));
}

/// No two tags share a name.
pub open spec fn distinct_names(tags: Seq<GitTag>) -> bool {
    forall|i: int, j: int|
        0 <= i < j < tags.len() ==> #[trigger] tags[i].name@ != #[trigger] tags[j].name@
}

/// The catalog that the tags `sorted` give, in their order: each admitted tag whose name
/// differs from the one kept before it.
pub open spec fn catalog_of(blacklist: Seq<String>, sorted: Seq<GitTag>) -> Seq<GitTag>
    decreases sorted.len(),
{
    if sorted.len() == 0 {
        sorted
    } else {
        let kept = catalog_of(blacklist, sorted.drop_last());
        let t = sorted.last();
        if admitted(blacklist, t) && !(kept.len() > 0 && kept.last().name@ == t.name@) {
            kept.push(t)
        } else {
            kept
        }
    }
}

/// The catalog: tags newest first, each with the timestamp its name encodes.
pub struct ReleaseHub {
    pub tags_list: Vec<GitTag>,
    pub tag_dates: Vec<DateTime>,
}

impl ReleaseHub {
    pub open spec fn wf(&self) -> bool {
        &&& self.tags_list.len() == self.tag_dates.len()
        &&& forall|i: int| 0 <= i < self.tag_dates.len() ==> #[trigger] self.tag_dates[i].wf()
    }

    /// The catalog's dates, position by position.
    pub open spec fn dates(&self) -> Seq<DateTime> {
        self.tag_dates@
    }

    /// Builds the catalog from the listed tags: sorted newest first, keeping one tag of
    /// each name, and only those whose name has a timestamp and is not blacklisted.
    pub fn from_tags(tags: Vec<GitTag>, blacklist: &Vec<String>) -> (r: ReleaseHub)
        ensures
            r.wf(),
            exists|sorted: Seq<GitTag>|
                sorted.to_multiset() == tags@.to_multiset() && newest_first(sorted)
                    && r.tags_list@ == catalog_of(blacklist@, sorted),
            newest_first(r.tags_list@),
            distinct_names(r.tags_list@),
            forall|i: int| 0 <= i < r.tags_list.len() ==> admitted(blacklist@, #[trigger] r.tags_list@[i]),
            forall|i: int|
                0 <= i < r.tags_list.len() ==> tag_time(#[trigger] r.tags_list[i].name@) == Some(
                    r.tag_dates[i],
                ),
    {
        let mut tags = tags;
        sort_newest_first(&mut tags);
        let mut tags_list: Vec<GitTag> = Vec::new();
        let mut tag_dates: Vec<DateTime> = Vec::new();
        let mut i: usize = 0;
        while i < tags.len()
            invariant
                i <= tags.len(),
                newest_first(tags@),
                tags_list.len() == tag_dates.len(),
                tags_list@ == catalog_of(blacklist@, tags@.take(i as int)),
                newest_first(tags_list@),
                distinct_names(tags_list@),
                i > 0 ==> forall|k: int|
                    0 <= k < tags_list.len() ==> name_le(
                        tags@[i - 1].name@,
                        #[trigger] tags_list@[k].name@,
                    ),
                forall|k: int| 0 <= k < tags_list.len() ==> admitted(blacklist@, #[trigger] tags_list@[k]),
                forall|k: int| 0 <= k < tag_dates.len() ==> #[trigger] tag_dates[k].wf(),
                forall|k: int|
                    0 <= k < tags_list.len() ==> tag_time(#[trigger] tags_list@[k].name@) == Some(
                        tag_dates@[k],
                    ),
            decreases tags.len() - i,
        {
            let tag = &tags[i];
            let ghost t = tags@[i as int];
            assert(tags@.take(i + 1).drop_last() =~= tags@.take(i as int));
            assert(tags@.take(i + 1).last() == t);
            proof {
                lemma_name_le_total(t.name@, t.name@);
                if i > 0 {
                    assert(name_le(t.name@, tags@[i - 1].name@));
                    assert forall|k: int| 0 <= k < tags_list.len() implies name_le(
                        t.name@,
                        #[trigger] tags_list@[k].name@,
                    ) by {
                        lemma_name_le_trans(t.name@, tags@[i - 1].name@, tags_list@[k].name@);
                    }
                }
            }
            let repeated = tags_list.len() > 0 && tags_list[tags_list.len() - 1].name == tag.name;
            let blocked = is_listed(blacklist, &tag.name);
            if !blocked && !repeated && tag.try_tag_datetime().is_some() {
                let when = tag.tag_datetime();
                let ghost old_list = tags_list@;
                let ghost old_dates = tag_dates@;
                proof {
                    assert forall|k: int| 0 <= k < old_list.len() implies old_list[k].name@
                        != t.name@ by {
                        let last = old_list.len() - 1;
                        if k < last {
                            assert(name_le(old_list[last].name@, old_list[k].name@));
                        }
                        lemma_name_le_total(t.name@, old_list[last].name@);
                    }
                }
                tags_list.push(GitTag { name: tag.name.clone() });
                tag_dates.push(when);
                assert(tags_list@ =~= old_list.push(t));
                assert(tag_dates@ =~= old_dates.push(when));
            }
            i += 1;
        }
        assert(tags@.take(tags.len() as int) =~= tags@);
        ReleaseHub { tags_list, tag_dates }
    }

    /// The position of the tag named `tag`.
    pub fn position_of(&self, tag: &String) -> (r: Result<usize, BisectError>)
        ensures
            r matches Ok(p) ==> position_in(self.tags_list@, tag@) == Some(p as int),
            r is Err ==> r == Err::<usize, BisectError>(BisectError::NotFound) && position_in(
                self.tags_list@,
                tag@,
            ) is None,
    {
        let mut i: usize = 0;
        while i < self.tags_list.len()
            invariant
                i <= self.tags_list.len(),
                forall|j: int| 0 <= j < i ==> #[trigger] self.tags_list@[j].name@ != tag@,
            decreases self.tags_list.len() - i,
        {
            if self.tags_list[i].name == *tag {
                proof {
                    lemma_first_position_unique(self.tags_list@, tag@, i as int);
                }
                return Ok(i);
            }
            i += 1;
        }
        Err(BisectError::NotFound)
    }

    /// The catalog's tag named `tag`.
    pub fn find_tag(&self, tag: &String) -> (r: Result<&GitTag, BisectError>)
        ensures
            r matches Ok(t) ==> exists|p: int|
                position_in(self.tags_list@, tag@) == Some(p) && *t == self.tags_list@[p],
            r is Err ==> r == Err::<&GitTag, BisectError>(BisectError::NotFound) && position_in(
                self.tags_list@,
                tag@,
            ) is None,
    {
        match self.position_of(tag) {
            Ok(p) => Ok(&self.tags_list[p]),
            Err(e) => Err(e),
        }
    }
}

/// A blacklisted name is not found in a catalog whose tags are all admitted.
pub proof fn lemma_blacklisted_not_found(tags: Seq<GitTag>, blacklist: Seq<String>, name: Seq<char>)
    requires
        forall|i: int| 0 <= i < tags.len() ==> admitted(blacklist, #[trigger] tags[i]),
        listed(blacklist, name),
    ensures
        position_in(tags, name) is None,
{
    if exists|i: int| is_first_position(tags, name, i) {
        let i = choose|i: int| is_first_position(tags, name, i);
        assert(admitted(blacklist, tags[i]));
    }
}

/// Whether `name` is one of the names in `list`.
pub fn is_listed(list: &Vec<String>, name: &String) -> (r: bool)
    ensures
        r == listed(list@, name@),
{
    let mut i: usize = 0;
    while i < list.len()
        invariant
            i <= list.len(),
            forall|j: int| 0 <= j < i ==> #[trigger] list@[j]@ != name@,
        decreases list.len() - i,
    {
        if list[i] == *name {
            return true;
        }
        i += 1;
    }
    false
}

/// Whether the bytes of `p` occur in `s` starting at byte `k`.
pub open spec fn occurs_at(s: Seq<u8>, p: Seq<u8>, k: int) -> bool {
    0 <= k && k + p.len() <= s.len() && s.subrange(k, k + p.len()) == p
}

/// Whether `s` ends with `p`, compared byte by byte as `str::ends_with` does.
pub open spec fn has_suffix(s: Seq<char>, p: Seq<char>) -> bool {
    occurs_at(encode_utf8(s), encode_utf8(p), encode_utf8(s).len() - encode_utf8(p).len())
}

/// Whether `p` occurs in `s`, compared byte by byte as `str::contains` does.
pub open spec fn has_infix(s: Seq<char>, p: Seq<char>) -> bool {
    exists|k: int| occurs_at(encode_utf8(s), encode_utf8(p), k)
}

/// Whether the bytes of `p` occur in `s` starting at byte `k`.
fn bytes_at(s: &[u8], p: &[u8], k: usize) -> (r: bool)
    requires
        k + p.len() <= s.len(),
    ensures
        r == occurs_at(s@, p@, k as int),
{
    let mut i: usize = 0;
    while i < p.len()
        invariant
            k + p.len() <= s.len(),
            i <= p.len(),
            forall|j: int| 0 <= j < i ==> s@[k + j] == p@[j],
        decreases p.len() - i,
    {
        if s[k + i] != p[i] {
            assert(s@.subrange(k as int, k + p@.len())[i as int] == s@[k + i]);
            return false;
        }
        i += 1;
    }
    assert(s@.subrange(k as int, k + p@.len()) =~= p@);
    true
}

/// Whether `s` ends with `p`.
pub fn ends_with(s: &str, p: &str) -> (r: bool)
    ensures
        r == has_suffix(s@, p@),
{
    let x = s.as_bytes();
    let y = p.as_bytes();
    if y.len() > x.len() {
        return false;
    }
    bytes_at(x, y, x.len() - y.len())
}

/// Whether `p` occurs in `s`.
pub fn contains(s: &str, p: &str) -> (r: bool)
    ensures
        r == has_infix(s@, p@),
{
    let x = s.as_bytes();
    let y = p.as_bytes();
    if y.len() > x.len() {
        return false;
    }
    let last: usize = x.len() - y.len();
    let mut k: usize = 0;
    while k < last
        invariant
            x@ == encode_utf8(s@),
            y@ == encode_utf8(p@),
            last == x.len() - y.len(),
            k <= last,
            forall|j: int| 0 <= j < k ==> !occurs_at(x@, y@, j),
        decreases last - k,
    {
        if bytes_at(x, y, k) {
            return true;
        }
        k += 1;
    }
    bytes_at(x, y, last)
}

/// The release that a user names by `want`: the first whose tag ends with it, else the
/// last whose tag holds it.
pub open spec fn resolved(tags: Seq<GitTag>, want: Seq<char>) -> Option<int> {
    if exists|i: int| 0 <= i < tags.len() && has_suffix(#[trigger] tags[i].name@, want) {
        Some(
            choose|i: int|
                0 <= i < tags.len() && has_suffix(tags[i].name@, want) && forall|j: int|
                    0 <= j < i ==> !has_suffix(#[trigger] tags[j].name@, want),
        )
    } else if exists|i: int| 0 <= i < tags.len() && has_infix(#[trigger] tags[i].name@, want) {
        Some(
            choose|i: int|
                0 <= i < tags.len() && has_infix(tags[i].name@, want) && forall|j: int|
                    i < j < tags.len() ==> !has_infix(#[trigger] tags[j].name@, want),
        )
    } else {
        None
    }
}

impl ReleaseHub {
    /// The catalog position of the release that `want` names: the first whose tag ends
    /// with it, else the last whose tag holds it.
    pub fn resolve_tag(&self, want: &String) -> (r: Option<usize>)
        ensures
            r matches Some(p) ==> p < self.tags_list.len() && ((has_suffix(
                self.tags_list@[p as int].name@,
                want@,
            ) && forall|j: int| 0 <= j < p ==> !has_suffix(#[trigger] self.tags_list@[j].name@, want@))
                || ((forall|j: int|
                0 <= j < self.tags_list.len() ==> !has_suffix(
                    #[trigger] self.tags_list@[j].name@,
                    want@,
                )) && has_infix(self.tags_list@[p as int].name@, want@) && forall|j: int|
                p < j < self.tags_list.len() ==> !has_infix(#[trigger] self.tags_list@[j].name@, want@))),
            r is None ==> forall|j: int|
                0 <= j < self.tags_list.len() ==> !has_infix(#[trigger] self.tags_list@[j].name@, want@),
    {
        let mut i: usize = 0;
        while i < self.tags_list.len()
            invariant
                i <= self.tags_list.len(),
                forall|j: int| 0 <= j < i ==> !has_suffix(#[trigger] self.tags_list@[j].name@, want@),
            decreases self.tags_list.len() - i,
        {
            if ends_with(self.tags_list[i].name.as_str(), want.as_str()) {
                return Some(i);
            }
            i += 1;
        }
        let mut n: usize = self.tags_list.len();
        while n > 0
            invariant
                n <= self.tags_list.len(),
                forall|j: int| 0 <= j < self.tags_list.len() ==> !has_suffix(#[trigger] self.tags_list@[j].name@, want@),
                forall|j: int| n <= j < self.tags_list.len() ==> !has_infix(#[trigger] self.tags_list@[j].name@, want@),
            decreases n,
        {
            if contains(self.tags_list[n - 1].name.as_str(), want.as_str()) {
                return Some(n - 1);
            }
            n -= 1;
        }
        None
    }
}

} // verus!

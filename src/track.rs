use vstd::prelude::*;
use vstd::utf8::{encode_utf8, encode_utf8_decode_utf8};

use crate::release_hub::GitTag;

verus! {

/// A user's verdict on one release.
#[derive(Debug, Clone, Copy, PartialEq, Eq, Structural)]
pub enum Goodness {
    Good,
    Bad,
    Skip,
}

/// Byte-wise lexicographic order, as `String` compares.
pub open spec fn bytes_le(a: Seq<u8>, b: Seq<u8>) -> bool
    decreases a.len(),
{
    if a.len() == 0 {
        true
    } else if b.len() == 0 {
        false
    } else if a[0] != b[0] {
        a[0] < b[0]
    } else {
        bytes_le(a.drop_first(), b.drop_first())
    }
}

/// Lexicographic order on tag names, over their UTF-8 bytes. On the fixed-width names of
/// releases it is the chronological order.
pub open spec fn name_le(a: Seq<char>, b: Seq<char>) -> bool {
    bytes_le(encode_utf8(a), encode_utf8(b))
}

proof fn lemma_bytes_le_total(a: Seq<u8>, b: Seq<u8>)
    ensures
        bytes_le(a, b) || bytes_le(b, a),
        bytes_le(a, b) && bytes_le(b, a) ==> a == b,
    decreases a.len(),
{
    if a.len() > 0 && b.len() > 0 && a[0] == b[0] {
        lemma_bytes_le_total(a.drop_first(), b.drop_first());
        if bytes_le(a, b) && bytes_le(b, a) {
            assert(a =~= seq![a[0]] + a.drop_first());
            assert(b =~= seq![b[0]] + b.drop_first());
        }
    }
}

pub proof fn lemma_bytes_le_trans(a: Seq<u8>, b: Seq<u8>, c: Seq<u8>)
    requires
        bytes_le(a, b),
        bytes_le(b, c),
    ensures
        bytes_le(a, c),
    decreases a.len(),
{
    if a.len() > 0 && b.len() > 0 && c.len() > 0 && a[0] == b[0] && b[0] == c[0] {
        lemma_bytes_le_trans(a.drop_first(), b.drop_first(), c.drop_first());
    }
}

pub proof fn lemma_name_le_total(a: Seq<char>, b: Seq<char>)
    ensures
        name_le(a, b) || name_le(b, a),
        name_le(a, b) && name_le(b, a) ==> a == b,
{
    lemma_bytes_le_total(encode_utf8(a), encode_utf8(b));
    encode_utf8_decode_utf8(a);
    encode_utf8_decode_utf8(b);
}

/// Lexicographic order on names is transitive.
pub proof fn lemma_name_le_trans(a: Seq<char>, b: Seq<char>, c: Seq<char>)
    requires
        name_le(a, b),
        name_le(b, c),
    ensures
        name_le(a, c),
{
    lemma_bytes_le_trans(encode_utf8(a), encode_utf8(b), encode_utf8(c));
}

/// Whether the log holds verdict `g` for the release named `name`.
pub open spec fn has_verdict(log: Seq<(String, Goodness)>, name: Seq<char>, g: Goodness) -> bool {
    exists|i: int| 0 <= i < log.len() && #[trigger] log[i].0@ == name && log[i].1 == g
}

/// `name` has verdict `g` and is the greatest name with it.
pub open spec fn is_greatest(log: Seq<(String, Goodness)>, g: Goodness, name: Seq<char>) -> bool {
    has_verdict(log, name, g) && forall|i: int|
        0 <= i < log.len() && #[trigger] log[i].1 == g ==> name_le(log[i].0@, name)
}

/// `name` has verdict `g` and is the least name with it.
pub open spec fn is_least(log: Seq<(String, Goodness)>, g: Goodness, name: Seq<char>) -> bool {
    has_verdict(log, name, g) && forall|i: int|
        0 <= i < log.len() && #[trigger] log[i].1 == g ==> name_le(name, log[i].0@)
}

/// The newest release judged good: the greatest name among the good verdicts.
pub open spec fn latest_good(log: Seq<(String, Goodness)>) -> Option<Seq<char>> {
    if exists|n: Seq<char>| is_greatest(log, Goodness::Good, n) {
        Some(choose|n: Seq<char>| is_greatest(log, Goodness::Good, n))
    } else {
        None
    }
}

/// The oldest release judged bad: the least name among the bad verdicts.
pub open spec fn earliest_bad(log: Seq<(String, Goodness)>) -> Option<Seq<char>> {
    if exists|n: Seq<char>| is_least(log, Goodness::Bad, n) {
        Some(choose|n: Seq<char>| is_least(log, Goodness::Bad, n))
    } else {
        None
    }
}

proof fn lemma_greatest_unique(log: Seq<(String, Goodness)>, g: Goodness, n: Seq<char>)
    requires
        is_greatest(log, g, n),
    ensures
        g == Goodness::Good ==> latest_good(log) == Some(n),
{
    if g == Goodness::Good {
        let c = choose|m: Seq<char>| is_greatest(log, Goodness::Good, m);
        assert(is_greatest(log, g, c));
        let i = choose|i: int| 0 <= i < log.len() && #[trigger] log[i].0@ == n && log[i].1 == g;
        let j = choose|j: int| 0 <= j < log.len() && #[trigger] log[j].0@ == c && log[j].1 == g;
        assert(name_le(log[i].0@, c));
        assert(name_le(log[j].0@, n));
        lemma_name_le_total(n, c);
    }
}

proof fn lemma_least_unique(log: Seq<(String, Goodness)>, g: Goodness, n: Seq<char>)
    requires
        is_least(log, g, n),
    ensures
        g == Goodness::Bad ==> earliest_bad(log) == Some(n),
{
    if g == Goodness::Bad {
        let c = choose|m: Seq<char>| is_least(log, Goodness::Bad, m);
        assert(is_least(log, g, c));
        let i = choose|i: int| 0 <= i < log.len() && #[trigger] log[i].0@ == n && log[i].1 == g;
        let j = choose|j: int| 0 <= j < log.len() && #[trigger] log[j].0@ == c && log[j].1 == g;
        assert(name_le(c, log[i].0@));
        assert(name_le(n, log[j].0@));
        lemma_name_le_total(n, c);
    }
}

/// The derived bounds depend on which entries the log holds, not on the order in which
/// they were appended: two logs with the same entries give the same latest good and
/// earliest bad release.
pub proof fn lemma_bounds_ignore_append_order(a: Seq<(String, Goodness)>, b: Seq<(String, Goodness)>)
    requires
        forall|e: (String, Goodness)| a.contains(e) <==> b.contains(e),
    ensures
        latest_good(a) == latest_good(b),
        earliest_bad(a) == earliest_bad(b),
{
    assert forall|x: Seq<(String, Goodness)>, y: Seq<(String, Goodness)>, n: Seq<char>, g: Goodness|
        (forall|e: (String, Goodness)| x.contains(e) <==> y.contains(e)) && #[trigger] is_greatest(x, g, n) implies #[trigger] is_greatest(y, g, n) by {
        let i = choose|i: int| 0 <= i < x.len() && #[trigger] x[i].0@ == n && x[i].1 == g;
        assert(x.contains(x[i]));
        let k = choose|k: int| 0 <= k < y.len() && y[k] == x[i];
        assert(y[k].0@ == n);
        assert forall|j: int| 0 <= j < y.len() && #[trigger] y[j].1 == g implies name_le(y[j].0@, n) by {
            assert(y.contains(y[j]));
            let m = choose|m: int| 0 <= m < x.len() && x[m] == y[j];
            assert(x[m].1 == g);
        }
    }
    assert forall|x: Seq<(String, Goodness)>, y: Seq<(String, Goodness)>, n: Seq<char>, g: Goodness|
        (forall|e: (String, Goodness)| x.contains(e) <==> y.contains(e)) && #[trigger] is_least(x, g, n) implies #[trigger] is_least(y, g, n) by {
        let i = choose|i: int| 0 <= i < x.len() && #[trigger] x[i].0@ == n && x[i].1 == g;
        assert(x.contains(x[i]));
        let k = choose|k: int| 0 <= k < y.len() && y[k] == x[i];
        assert(y[k].0@ == n);
        assert forall|j: int| 0 <= j < y.len() && #[trigger] y[j].1 == g implies name_le(n, y[j].0@) by {
            assert(y.contains(y[j]));
            let m = choose|m: int| 0 <= m < x.len() && x[m] == y[j];
            assert(x[m].1 == g);
        }
    }
    if latest_good(a) is Some {
        let n = latest_good(a)->0;
        assert(is_greatest(b, Goodness::Good, n));
        lemma_greatest_unique(b, Goodness::Good, n);
    } else if latest_good(b) is Some {
        let n = latest_good(b)->0;
        assert(is_greatest(a, Goodness::Good, n));
    }
    if earliest_bad(a) is Some {
        let n = earliest_bad(a)->0;
        assert(is_least(b, Goodness::Bad, n));
        lemma_least_unique(b, Goodness::Bad, n);
    } else if earliest_bad(b) is Some {
        let n = earliest_bad(b)->0;
        assert(is_least(a, Goodness::Bad, n));
    }
}

/// Whether `a` comes before or equals `b` in lexicographic order.
pub fn name_on_or_before(a: &String, b: &String) -> (r: bool)
    ensures
        r == name_le(a@, b@),
{
    let x = a.as_str().as_bytes();
    let y = b.as_str().as_bytes();
    let ghost ax = encode_utf8(a@);
    let ghost by = encode_utf8(b@);
    let mut i: usize = 0;
    assert(ax.skip(0) =~= ax);
    assert(by.skip(0) =~= by);
    while i < x.len() && i < y.len()
        invariant
            ax == encode_utf8(a@),
            by == encode_utf8(b@),
            x@ == ax,
            y@ == by,
            i <= x.len(),
            i <= y.len(),
            bytes_le(ax, by) == bytes_le(ax.skip(i as int), by.skip(i as int)),
        decreases x.len() - i,
    {
        if x[i] != y[i] {
            assert(ax.skip(i as int)[0] == x@[i as int]);
            assert(by.skip(i as int)[0] == y@[i as int]);
            assert(ax.skip(i as int).len() > 0 && by.skip(i as int).len() > 0);
            assert(bytes_le(ax.skip(i as int), by.skip(i as int)) == (x@[i as int] < y@[i as int]));
            return x[i] < y[i];
        }
        assert(ax.skip(i as int).drop_first() =~= ax.skip(i + 1));
        assert(by.skip(i as int).drop_first() =~= by.skip(i + 1));
        i += 1;
    }
    assert(ax.skip(i as int).len() == x.len() - i);
    assert(by.skip(i as int).len() == y.len() - i);
    x.len() <= y.len()
}

/// The judgment log: every verdict in the order it was given.
pub struct Track(pub Vec<(String, Goodness)>);

impl Track {
    /// An empty log.
    pub fn new() -> (r: Self)
        ensures
            r.0@.len() == 0,
    {
        Track(Vec::new())
    }

    /// Appends verdict `goodness` for the release named `tag`.
    pub fn record(&mut self, tag: String, goodness: Goodness)
        ensures
            final(self).0@ == old(self).0@.push((tag, goodness)),
    {
        self.0.push((tag, goodness));
    }

    /// Whether some verdict on `tag` is a skip.
    pub fn is_tag_skipped(&self, tag: &GitTag) -> (r: bool)
        ensures
            r == has_verdict(self.0@, tag.name@, Goodness::Skip),
    {
        let mut i: usize = 0;
        while i < self.0.len()
            invariant
                i <= self.0.len(),
                forall|j: int|
                    0 <= j < i ==> !(#[trigger] self.0@[j].0@ == tag.name@ && self.0@[j].1
                        == Goodness::Skip),
            decreases self.0.len() - i,
        {
            if self.0[i].1 == Goodness::Skip && self.0[i].0 == tag.name {
                return true;
            }
            i += 1;
        }
        false
    }

    /// The newest release judged good, by greatest name.
    pub fn latest_good(&self) -> (r: Option<String>)
        ensures
            r matches Some(n) ==> latest_good(self.0@) == Some(n@),
            r is None ==> latest_good(self.0@) is None,
    {
        let log = &self.0;
        let mut best: Option<usize> = None;
        let mut i: usize = 0;
        while i < log.len()
            invariant
                i <= log.len(),
                best matches Some(k) ==> k < i && log@[k as int].1 == Goodness::Good
                    && is_greatest(log@.take(i as int), Goodness::Good, log@[k as int].0@),
                best is None ==> forall|j: int| 0 <= j < i ==> #[trigger] log@[j].1 != Goodness::Good,
            decreases log.len() - i,
        {
            let ghost pre = log@.take(i as int);
            let ghost post = log@.take(i + 1);
            assert(forall|j: int| 0 <= j < i ==> #[trigger] post[j] == pre[j]);
            if log[i].1 == Goodness::Good {
                match best {
                    None => {
                        best = Some(i);
                        assert(post[i as int].0@ == log@[i as int].0@);
                        assert(is_greatest(post, Goodness::Good, log@[i as int].0@)) by {
                            assert forall|j: int| 0 <= j < post.len() && #[trigger] post[j].1 == Goodness::Good
                                implies name_le(post[j].0@, log@[i as int].0@) by {
                                lemma_name_le_total(post[j].0@, log@[i as int].0@);
                            }
                        }
                    },
                    Some(k) => {
                        let ghost cur = log@[k as int].0@;
                        let ghost new = log@[i as int].0@;
                        if !name_on_or_before(&log[i].0, &log[k].0) {
                            best = Some(i);
                            proof {
                                lemma_name_le_total(new, cur);
                                assert(post[i as int].0@ == new);
                                assert forall|j: int| 0 <= j < post.len() && #[trigger] post[j].1 == Goodness::Good
                                    implies name_le(post[j].0@, new) by {
                                    if j < i {
                                        assert(pre[j].1 == Goodness::Good);
                                        assert(name_le(pre[j].0@, cur));
                                        lemma_bytes_le_trans(encode_utf8(pre[j].0@), encode_utf8(cur), encode_utf8(new));
                                    } else {
                                        lemma_name_le_total(new, new);
                                    }
                                }
                            }
                        } else {
                            proof {
                                let w = choose|w: int| 0 <= w < pre.len() && #[trigger] pre[w].0@ == cur && pre[w].1 == Goodness::Good;
                                assert(post[w].0@ == cur);
                                assert forall|j: int| 0 <= j < post.len() && #[trigger] post[j].1 == Goodness::Good
                                    implies name_le(post[j].0@, cur) by {
                                    if j < i {
                                        assert(pre[j].1 == Goodness::Good);
                                    }
                                }
                            }
                        }
                    },
                }
            } else {
                proof {
                    if best is Some {
                        let cur = log@[best->0 as int].0@;
                        let w = choose|w: int| 0 <= w < pre.len() && #[trigger] pre[w].0@ == cur && pre[w].1 == Goodness::Good;
                        assert(post[w].0@ == cur);
                        assert forall|j: int| 0 <= j < post.len() && #[trigger] post[j].1 == Goodness::Good
                            implies name_le(post[j].0@, cur) by {
                            assert(pre[j].1 == Goodness::Good);
                        }
                    }
                }
            }
            i += 1;
        }
        assert(log@.take(log.len() as int) =~= log@);
        match best {
            Some(k) => {
                proof {
                    lemma_greatest_unique(log@, Goodness::Good, log@[k as int].0@);
                }
                Some(log[k].0.clone())
            },
            None => None,
        }
    }

    /// The oldest release judged bad, by least name.
    pub fn earliest_bad(&self) -> (r: Option<String>)
        ensures
            r matches Some(n) ==> earliest_bad(self.0@) == Some(n@),
            r is None ==> earliest_bad(self.0@) is None,
    {
        let log = &self.0;
        let mut best: Option<usize> = None;
        let mut i: usize = 0;
        while i < log.len()
            invariant
                i <= log.len(),
                best matches Some(k) ==> k < i && log@[k as int].1 == Goodness::Bad
                    && is_least(log@.take(i as int), Goodness::Bad, log@[k as int].0@),
                best is None ==> forall|j: int| 0 <= j < i ==> #[trigger] log@[j].1 != Goodness::Bad,
            decreases log.len() - i,
        {
            let ghost pre = log@.take(i as int);
            let ghost post = log@.take(i + 1);
            assert(forall|j: int| 0 <= j < i ==> #[trigger] post[j] == pre[j]);
            if log[i].1 == Goodness::Bad {
                match best {
                    None => {
                        best = Some(i);
                        assert(post[i as int].0@ == log@[i as int].0@);
                        assert(is_least(post, Goodness::Bad, log@[i as int].0@)) by {
                            assert forall|j: int| 0 <= j < post.len() && #[trigger] post[j].1 == Goodness::Bad
                                implies name_le(log@[i as int].0@, post[j].0@) by {
                                lemma_name_le_total(log@[i as int].0@, post[j].0@);
                            }
                        }
                    },
                    Some(k) => {
                        let ghost cur = log@[k as int].0@;
                        let ghost new = log@[i as int].0@;
                        if !name_on_or_before(&log[k].0, &log[i].0) {
                            best = Some(i);
                            proof {
                                lemma_name_le_total(new, cur);
                                assert(post[i as int].0@ == new);
                                assert forall|j: int| 0 <= j < post.len() && #[trigger] post[j].1 == Goodness::Bad
                                    implies name_le(new, post[j].0@) by {
                                    if j < i {
                                        assert(pre[j].1 == Goodness::Bad);
                                        assert(name_le(cur, pre[j].0@));
                                        lemma_bytes_le_trans(encode_utf8(new), encode_utf8(cur), encode_utf8(pre[j].0@));
                                    } else {
                                        lemma_name_le_total(new, new);
                                    }
                                }
                            }
                        } else {
                            proof {
                                let w = choose|w: int| 0 <= w < pre.len() && #[trigger] pre[w].0@ == cur && pre[w].1 == Goodness::Bad;
                                assert(post[w].0@ == cur);
                                assert forall|j: int| 0 <= j < post.len() && #[trigger] post[j].1 == Goodness::Bad
                                    implies name_le(cur, post[j].0@) by {
                                    if j < i {
                                        assert(pre[j].1 == Goodness::Bad);
                                    }
                                }
                            }
                        }
                    },
                }
            } else {
                proof {
                    if best is Some {
                        let cur = log@[best->0 as int].0@;
                        let w = choose|w: int| 0 <= w < pre.len() && #[trigger] pre[w].0@ == cur && pre[w].1 == Goodness::Bad;
                        assert(post[w].0@ == cur);
                        assert forall|j: int| 0 <= j < post.len() && #[trigger] post[j].1 == Goodness::Bad
                            implies name_le(cur, post[j].0@) by {
                            assert(pre[j].1 == Goodness::Bad);
                        }
                    }
                }
            }
            i += 1;
        }
        assert(log@.take(log.len() as int) =~= log@);
        match best {
            Some(k) => {
                proof {
                    lemma_least_unique(log@, Goodness::Bad, log@[k as int].0@);
                }
                Some(log[k].0.clone())
            },
            None => None,
        }
    }
}

/// Appending two verdicts in either order gives the same latest good and earliest bad
/// release.
pub proof fn lemma_swapped_appends(
    log: Seq<(String, Goodness)>,
    x: (String, Goodness),
    y: (String, Goodness),
)
    ensures
        latest_good(log.push(x).push(y)) == latest_good(log.push(y).push(x)),
        earliest_bad(log.push(x).push(y)) == earliest_bad(log.push(y).push(x)),
{
    let a = log.push(x).push(y);
    let b = log.push(y).push(x);
    assert forall|e: (String, Goodness)| a.contains(e) <==> b.contains(e) by {
        if a.contains(e) {
            let i = choose|i: int| 0 <= i < a.len() && a[i] == e;
            if i < log.len() {
                assert(b[i] == e);
            } else if i == log.len() {
                assert(b[i + 1] == e);
            } else {
                assert(b[i - 1] == e);
            }
        }
        if b.contains(e) {
            let i = choose|i: int| 0 <= i < b.len() && b[i] == e;
            if i < log.len() {
                assert(a[i] == e);
            } else if i == log.len() {
                assert(a[i + 1] == e);
            } else {
                assert(a[i - 1] == e);
            }
        }
    }
    lemma_bounds_ignore_append_order(a, b);
}

} // verus!

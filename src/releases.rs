use vstd::prelude::*;
use vstd::utf8::encode_utf8;

use crate::error::BisectError;
use crate::release_hub::listed;

verus! {

/// A downloadable file attached to a release.
#[derive(Debug, Clone)]
pub struct ReleaseAsset {
    pub name: String,
    pub browser_download_url: String,
}

/// What the release listing says of one release.
#[derive(Debug, Clone)]
pub struct GithubRelease {
    pub id: i64,
    pub published_at: String,
    pub tag_name: String,
    pub assets: Vec<ReleaseAsset>,
    pub html_url: String,
    pub target_commitish: String,
}

/// The tag names excluded from every catalog for good.
pub struct ReleaseBlacklist {
    pub release_tags: Vec<String>,
}

impl ReleaseBlacklist {
    /// A blacklist that excludes nothing.
    pub fn new() -> (r: Self)
        ensures
            r.release_tags@.len() == 0,
    {
        ReleaseBlacklist { release_tags: Vec::new() }
    }

    /// Excludes `release` from now on; a tag already excluded is not listed twice.
    pub fn add(&mut self, release: &GithubRelease)
        ensures
            listed(old(self).release_tags@, release.tag_name@) ==> final(self).release_tags@
                == old(self).release_tags@,
            !listed(old(self).release_tags@, release.tag_name@) ==> final(self).release_tags@.len()
                == old(self).release_tags@.len() + 1 && final(self).release_tags@.drop_last()
                == old(self).release_tags@ && final(self).release_tags@.last()@
                == release.tag_name@,
            forall|n: Seq<char>|
                listed(final(self).release_tags@, n) <==> (listed(old(self).release_tags@, n) || n
                    == release.tag_name@),
    {
        if crate::release_hub::is_listed(&self.release_tags, &release.tag_name) {
            return;
        }
        let tag = release.tag_name.clone();
        let ghost before = self.release_tags@;
        self.release_tags.push(tag);
        proof {
            assert(self.release_tags@.drop_last() =~= before);
            assert forall|n: Seq<char>|
                listed(self.release_tags@, n) <==> (listed(before, n) || n
                    == release.tag_name@) by {
                if listed(self.release_tags@, n) {
                    let i = choose|i: int| 0 <= i < self.release_tags@.len() && #[trigger] self.release_tags@[i]@ == n;
                    if i < before.len() {
                        assert(before[i]@ == n);
                    }
                }
                if listed(before, n) {
                    let i = choose|i: int| 0 <= i < before.len() && #[trigger] before[i]@ == n;
                    assert(self.release_tags@[i]@ == n);
                }
                if n == release.tag_name@ {
                    assert(self.release_tags@[before.len() as int]@ == n);
                }
            }
        }
    }
}

/// The parent of a commit, from the parents that the commit listing gives: there must
/// be exactly one.
pub fn get_parent_commit(parents: &Vec<String>) -> (r: Result<String, BisectError>)
    ensures
        parents.len() == 1 <==> r is Ok,
        r matches Ok(s) ==> s@ == parents@[0]@,
        r is Err ==> r == Err::<String, BisectError>(BisectError::UnexpectedParents),
{
    if parents.len() != 1 {
        return Err(BisectError::UnexpectedParents);
    }
    Ok(parents[0].clone())
}

/// Whether `s` begins with `p`, compared byte by byte as `str::starts_with` does.
pub open spec fn has_prefix(s: Seq<char>, p: Seq<char>) -> bool {
    encode_utf8(p).len() <= encode_utf8(s).len() && encode_utf8(s).take(
        encode_utf8(p).len() as int,
    ) == encode_utf8(p)
}

/// Whether `s` begins with `p`.
pub fn starts_with(s: &str, p: &str) -> (r: bool)
    ensures
        r == has_prefix(s@, p@),
{
    let x = s.as_bytes();
    let y = p.as_bytes();
    if y.len() > x.len() {
        return false;
    }
    let mut i: usize = 0;
    while i < y.len()
        invariant
            x@ == encode_utf8(s@),
            y@ == encode_utf8(p@),
            y.len() <= x.len(),
            i <= y.len(),
            x@.take(i as int) == y@.take(i as int),
        decreases y.len() - i,
    {
        if x[i] != y[i] {
            assert(x@.take(y.len() as int)[i as int] == x@[i as int]);
            return false;
        }
        assert(x@.take(i + 1) =~= x@.take(i as int).push(x@[i as int]));
        assert(y@.take(i + 1) =~= y@.take(i as int).push(y@[i as int]));
        i += 1;
    }
    assert(y@.take(y.len() as int) =~= y@);
    true
}

/// Prefix of the 64-bit MSVC tiles build.
pub const TILES_X64_MSVC: &'static str = "cdda-windows-tiles-x64-msvc";

/// Prefix of the 64-bit build with graphics.
pub const GRAPHICS_X64: &'static str = "cdda-windows-with-graphics-x64";

/// Prefix of the 64-bit tiles build.
pub const TILES_X64: &'static str = "cdda-windows-tiles-x64";

/// Prefix of every tiles build.
pub const TILES: &'static str = "cdda-windows-tiles";

/// Prefix of every build with graphics.
pub const GRAPHICS: &'static str = "cdda-windows-with-graphics";

/// Prefix of the tags of experimental releases.
pub const EXPERIMENTAL: &'static str = "cdda-experimental";

/// Asset name prefixes, most wanted first.
pub open spec fn asset_priorities() -> Seq<Seq<char>> {
    seq![TILES_X64_MSVC@, GRAPHICS_X64@, TILES_X64@, TILES@, GRAPHICS@]
}

/// Whether some asset of `assets` has a name that begins with `p`.
pub open spec fn some_asset_with(assets: Seq<ReleaseAsset>, p: Seq<char>) -> bool {
    exists|i: int| 0 <= i < assets.len() && has_prefix(#[trigger] assets[i].name@, p)
}

/// Whether the release has a Windows build that can be run.
pub open spec fn has_windows_build(r: GithubRelease) -> bool {
    some_asset_with(r.assets@, TILES@) || some_asset_with(r.assets@, GRAPHICS@)
}

/// Whether `i` is the first asset whose name begins with `p`.
pub open spec fn first_with_prefix(assets: Seq<ReleaseAsset>, p: Seq<char>, i: int) -> bool {
    0 <= i < assets.len() && has_prefix(assets[i].name@, p) && forall|j: int|
        0 <= j < i ==> !has_prefix(#[trigger] assets[j].name@, p)
}

/// The asset to run: the first whose name has the most wanted prefix that any has.
pub fn select_best_asset(release: &GithubRelease) -> (r: &ReleaseAsset)
    requires
        has_windows_build(*release),
    ensures
        exists|k: int, i: int|
            0 <= k < 5 && first_with_prefix(release.assets@, asset_priorities()[k], i) && (forall|
                q: int,
            |
                0 <= q < k ==> !some_asset_with(release.assets@, #[trigger] asset_priorities()[q]))
                && *r == release.assets@[i],
{
    let prio_list: Vec<&'static str> = vec![TILES_X64_MSVC, GRAPHICS_X64, TILES_X64, TILES, GRAPHICS];
    assert(forall|k: int| 0 <= k < 5 ==> #[trigger] prio_list@[k]@ == asset_priorities()[k]);
    let mut k: usize = 0;
    while k < prio_list.len()
        invariant
            prio_list@.len() == 5,
            forall|q: int| 0 <= q < 5 ==> #[trigger] prio_list@[q]@ == asset_priorities()[q],
            k <= 5,
            forall|q: int|
                0 <= q < k ==> !some_asset_with(release.assets@, #[trigger] asset_priorities()[q]),
        decreases 5 - k,
    {
        let prio = prio_list[k];
        let mut i: usize = 0;
        while i < release.assets.len()
            invariant
                i <= release.assets.len(),
                k < 5,
                prio@ == asset_priorities()[k as int],
                forall|q: int|
                    0 <= q < k ==> !some_asset_with(release.assets@, #[trigger] asset_priorities()[q]),
                forall|j: int| 0 <= j < i ==> !has_prefix(#[trigger] release.assets@[j].name@, prio@),
            decreases release.assets.len() - i,
        {
            if starts_with(release.assets[i].name.as_str(), prio) {
                assert(first_with_prefix(release.assets@, asset_priorities()[k as int], i as int));
                return &release.assets[i];
            }
            i += 1;
        }
        k += 1;
    }
    assert(!some_asset_with(release.assets@, asset_priorities()[3]));
    assert(!some_asset_with(release.assets@, asset_priorities()[4]));
    assert(false);
    &release.assets[0]
}

/// Whether some asset of the release is a Windows build that can be run.
pub fn has_windows_asset(release: &GithubRelease) -> (r: bool)
    ensures
        r == has_windows_build(*release),
{
    let mut i: usize = 0;
    while i < release.assets.len()
        invariant
            i <= release.assets.len(),
            forall|j: int|
                0 <= j < i ==> !has_prefix(#[trigger] release.assets@[j].name@, TILES@)
                    && !has_prefix(release.assets@[j].name@, GRAPHICS@),
        decreases release.assets.len() - i,
    {
        let name = release.assets[i].name.as_str();
        if starts_with(name, TILES) || starts_with(name, GRAPHICS) {
            return true;
        }
        i += 1;
    }
    false
}

/// Whether a listed release is an experimental one with a Windows build.
pub open spec fn worth_keeping(r: GithubRelease) -> bool {
    has_prefix(r.tag_name@, EXPERIMENTAL@) && has_windows_build(r)
}

/// The experimental releases that have a Windows build, in their order.
pub fn trim_releases(releases: Vec<GithubRelease>) -> (r: Vec<GithubRelease>)
    ensures
        r@ == releases@.filter(|x: GithubRelease| worth_keeping(x)),
{
    let ghost keep = |x: GithubRelease| worth_keeping(x);
    let ghost all = releases@;
    let mut rest = releases;
    let mut out: Vec<GithubRelease> = Vec::new();
    let mut n: usize = 0;
    let total: usize = rest.len();
    assert(all.len() == total);
    assert(all.skip(0) =~= all);
    while rest.len() > 0
        invariant
            n + rest@.len() == all.len(),
            all.len() <= usize::MAX,
            keep == (|x: GithubRelease| worth_keeping(x)),
            rest@ == all.skip(n as int),
            out@ == all.take(n as int).filter(keep),
        decreases rest.len(),
    {
        assert(rest@[0] == all[n as int]);
        let r = rest.remove(0);
        assert(all.take(n + 1).filter(keep) == if keep(all[n as int]) {
            all.take(n as int).filter(keep).push(all[n as int])
        } else {
            all.take(n as int).filter(keep)
        }) by {
            assert(all.take(n + 1).drop_last() =~= all.take(n as int));
            reveal(Seq::filter);
        }
        assert(rest@ =~= all.skip(n + 1));
        assert(r == all[n as int]);
        assert(keep(r) == worth_keeping(r));
        if starts_with(r.tag_name.as_str(), EXPERIMENTAL) && has_windows_asset(&r) {
            out.push(r);
        }
        n += 1;
    }
    assert(all.take(n as int) =~= all);
    out
}

} // verus!

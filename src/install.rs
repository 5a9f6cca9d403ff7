use vstd::prelude::*;
use vstd::string::StringExecFns;
use vstd::utf8::encode_utf8;

use crate::track::{lemma_bytes_le_trans, lemma_name_le_total, name_le, name_on_or_before};

verus! {

/// Unpacked releases live in directories whose names end with the release's stamp.
pub const INSTALL_DIR_PATTERN: &'static str = r"^.*-(\d{4}-\d{2}-\d{2}-\d{4})$";

/// Tag names are the stamp after this prefix.
pub const TAG_PREFIX: &'static str = "cdda-experimental-";

/// The text of the first capture group where `pattern` matches `text`.
pub uninterp spec fn regex_capture(pattern: Seq<char>, text: Seq<char>) -> Option<Seq<char>>;

/// Relies on regex's `Regex::new`, `Regex::captures` and `Captures::get`: the text that
/// the first group captures where `pattern` compiles and matches `text`.
#[verifier::external_body]
fn first_capture(pattern: &str, text: &str) -> (r: Option<String>)
    ensures
        r matches Some(s) ==> regex_capture(pattern@, text@) == Some(s@),
        r is None ==> regex_capture(pattern@, text@) is None,
{
    let re = regex::Regex::new(pattern).ok()?;
    let caps = re.captures(text)?;
    Some(caps.get(1)?.as_str().to_string())
}

/// The stamp that an install directory's name carries.
pub open spec fn stamp_of(dir_name: Seq<char>) -> Option<Seq<char>> {
    regex_capture(INSTALL_DIR_PATTERN@, dir_name)
}

/// `s` is the greatest stamp among the directory names.
pub open spec fn is_freshest(dirs: Seq<String>, s: Seq<char>) -> bool {
    (exists|i: int| 0 <= i < dirs.len() && #[trigger] stamp_of(dirs[i]@) == Some(s)) && forall|
        i: int,
    |
        0 <= i < dirs.len() && (#[trigger] stamp_of(dirs[i]@)) is Some ==> name_le(
            stamp_of(dirs[i]@)->0,
            s,
        )
}

/// The tag of the newest release among the install directories named `dirs`.
pub fn freshest_install_tag(dirs: &Vec<String>) -> (r: Option<String>)
    ensures
        r matches Some(n) ==> exists|s: Seq<char>|
            is_freshest(dirs@, s) && n@ == TAG_PREFIX@ + s,
        r is None ==> forall|i: int| 0 <= i < dirs.len() ==> (#[trigger] stamp_of(dirs@[i]@)) is None,
{
    let mut best: Option<String> = None;
    let mut i: usize = 0;
    while i < dirs.len()
        invariant
            i <= dirs.len(),
            best matches Some(b) ==> is_freshest(dirs@.take(i as int), b@),
            best is None ==> forall|j: int| 0 <= j < i ==> (#[trigger] stamp_of(dirs@[j]@)) is None,
        decreases dirs.len() - i,
    {
        let ghost pre = dirs@.take(i as int);
        let ghost post = dirs@.take(i + 1);
        assert(forall|j: int| 0 <= j < i ==> #[trigger] post[j] == pre[j]);
        assert(post[i as int] == dirs@[i as int]);
        let found = first_capture(INSTALL_DIR_PATTERN, dirs[i].as_str());
        match found {
            None => {
                proof {
                    if best is Some {
                        let b = best->0@;
                        let w = choose|w: int| 0 <= w < pre.len() && #[trigger] stamp_of(pre[w]@) == Some(b);
                        assert(stamp_of(post[w]@) == Some(b));
                        assert forall|j: int| 0 <= j < post.len() && (#[trigger] stamp_of(post[j]@)) is Some implies name_le(stamp_of(post[j]@)->0, b) by {
                            assert(stamp_of(pre[j]@) is Some);
                        }
                    }
                }
            },
            Some(s) => {
                let replace = match &best {
                    None => true,
                    Some(b) => !name_on_or_before(&s, b),
                };
                if replace {
                    proof {
                        let n = s@;
                        assert(stamp_of(post[i as int]@) == Some(n));
                        assert forall|j: int| 0 <= j < post.len() && (#[trigger] stamp_of(post[j]@)) is Some implies name_le(stamp_of(post[j]@)->0, n) by {
                            if j < i {
                                let b = best->0@;
                                assert(stamp_of(pre[j]@) is Some);
                                assert(name_le(stamp_of(pre[j]@)->0, b));
                                lemma_name_le_total(n, b);
                                lemma_bytes_le_trans(encode_utf8(stamp_of(pre[j]@)->0), encode_utf8(b), encode_utf8(n));
                            } else {
                                lemma_name_le_total(n, n);
                            }
                        }
                    }
                    best = Some(s);
                } else {
                    proof {
                        let b = best->0@;
                        let w = choose|w: int| 0 <= w < pre.len() && #[trigger] stamp_of(pre[w]@) == Some(b);
                        assert(stamp_of(post[w]@) == Some(b));
                        assert forall|j: int| 0 <= j < post.len() && (#[trigger] stamp_of(post[j]@)) is Some implies name_le(stamp_of(post[j]@)->0, b) by {
                            if j < i {
                                assert(stamp_of(pre[j]@) is Some);
                            }
                        }
                    }
                }
            },
        }
        i += 1;
    }
    assert(dirs@.take(dirs.len() as int) =~= dirs@);
    match best {
        Some(b) => Some(TAG_PREFIX.to_owned().concat(b.as_str())),
        None => None,
    }
}

} // verus!

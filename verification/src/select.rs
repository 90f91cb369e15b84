//! File selection: which directory entries count as images, and which of
//! them are placed on the canvas.

use vstd::prelude::*;
use vstd::slice::slice_to_vec;
use vstd::string::StringSliceAdditionalSpecFns;

verus! {

/// `suffix` is a suffix of `s`.
pub open spec fn has_suffix(s: Seq<u8>, suffix: Seq<u8>) -> bool {
    suffix.len() <= s.len() && s.subrange(s.len() - suffix.len(), s.len() as int) == suffix
}

pub open spec fn png_suffix() -> Seq<u8> {
    seq![46u8, 112u8, 110u8, 103u8]
}

pub open spec fn bmp_suffix() -> Seq<u8> {
    seq![46u8, 98u8, 109u8, 112u8]
}

pub open spec fn jpeg_suffix() -> Seq<u8> {
    seq![46u8, 106u8, 112u8, 101u8, 103u8]
}

/// A file takes part in composition iff its name ends in `.png`, `.bmp` or
/// `.jpeg` (byte-exact, so case-sensitive, and `.jpg` is not recognized).
pub open spec fn spec_is_supported(name: Seq<u8>) -> bool {
    ||| has_suffix(name, png_suffix())
    ||| has_suffix(name, bmp_suffix())
    ||| has_suffix(name, jpeg_suffix())
}

fn ends_with_bytes(s: &Vec<u8>, suffix: &Vec<u8>) -> (r: bool)
    ensures
        r == has_suffix(s@, suffix@),
{
    if suffix.len() > s.len() {
        return false;
    }
    let off = s.len() - suffix.len();
    let mut i: usize = 0;
    while i < suffix.len()
        invariant
            i <= suffix@.len(),
            suffix@.len() <= s@.len(),
            s@.len() <= usize::MAX,
            off == s@.len() - suffix@.len(),
            forall|t: int| 0 <= t < i ==> s@[off + t] == suffix@[t],
        decreases suffix@.len() - i,
    {
        if s[off + i] != suffix[i] {
            proof {
                if has_suffix(s@, suffix@) {
                    assert(s@.subrange(off as int, s@.len() as int)[i as int] == suffix@[
                        i as int
                    ]);
                }
            }
            return false;
        }
        i = i + 1;
    }
    proof {
        assert(s@.subrange(off as int, s@.len() as int) =~= suffix@);
    }
    true
}

/// Extension filter on one file name, byte-exact as the discovery walk
/// applies it.
pub fn is_supported_name(name: &str) -> (r: bool)
    ensures
        r == spec_is_supported(name.spec_bytes()),
{
    let bytes: Vec<u8> = slice_to_vec(name.as_bytes());
    let mut png: Vec<u8> = Vec::new();
    png.push(46u8);
    png.push(112u8);
    png.push(110u8);
    png.push(103u8);
    proof {
        assert(png@ =~= png_suffix());
    }
    if ends_with_bytes(&bytes, &png) {
        return true;
    }
    let mut bmp: Vec<u8> = Vec::new();
    bmp.push(46u8);
    bmp.push(98u8);
    bmp.push(109u8);
    bmp.push(112u8);
    proof {
        assert(bmp@ =~= bmp_suffix());
    }
    if ends_with_bytes(&bytes, &bmp) {
        return true;
    }
    let mut jpeg: Vec<u8> = Vec::new();
    jpeg.push(46u8);
    jpeg.push(106u8);
    jpeg.push(112u8);
    jpeg.push(101u8);
    jpeg.push(103u8);
    proof {
        assert(jpeg@ =~= jpeg_suffix());
    }
    ends_with_bytes(&bytes, &jpeg)
}

/// Whether `path` appears in the ignore list, by exact string match.
pub open spec fn spec_is_ignored(path: String, ignored: Seq<String>) -> bool {
    exists|j: int| 0 <= j < ignored.len() && ignored[j]@ == path@
}

/// The indices, in input order, of the paths that are not ignored.
pub open spec fn spec_kept(paths: Seq<String>, ignored: Seq<String>) -> Seq<usize>
    decreases paths.len(),
{
    if paths.len() == 0 {
        Seq::empty()
    } else {
        let prefix = spec_kept(paths.drop_last(), ignored);
        if spec_is_ignored(paths.last(), ignored) {
            prefix
        } else {
            prefix.push((paths.len() - 1) as usize)
        }
    }
}

fn is_ignored(path: &String, ignored: &Vec<String>) -> (r: bool)
    ensures
        r == spec_is_ignored(*path, ignored@),
{
    let mut j: usize = 0;
    while j < ignored.len()
        invariant
            j <= ignored@.len(),
            forall|t: int| 0 <= t < j ==> ignored@[t]@ != path@,
        decreases ignored@.len() - j,
    {
        let entry: &String = &ignored[j];
        if entry.eq(path) {
            return true;
        }
        j = j + 1;
    }
    false
}

/// Selection for placement: the input-order indices of the paths that are
/// not in the ignore list.
pub fn select_placed(paths: &Vec<String>, ignored: &Vec<String>) -> (kept: Vec<usize>)
    ensures
        kept@ == spec_kept(paths@, ignored@),
{
    let mut kept: Vec<usize> = Vec::new();
    let mut i: usize = 0;
    while i < paths.len()
        invariant
            i <= paths@.len(),
            kept@ == spec_kept(paths@.take(i as int), ignored@),
        decreases paths@.len() - i,
    {
        proof {
            assert(paths@.take(i + 1).drop_last() =~= paths@.take(i as int));
            assert(paths@.take(i + 1).last() == paths@[i as int]);
        }
        if !is_ignored(&paths[i], ignored) {
            kept.push(i);
        }
        i = i + 1;
    }
    proof {
        assert(paths@.take(paths@.len() as int) =~= paths@);
    }
    kept
}

/// Ignored paths are never placed: every selected index is in range, its
/// path is not in the ignore list, and the indices are strictly increasing.
pub proof fn lemma_kept_not_ignored(paths: Seq<String>, ignored: Seq<String>)
    requires
        paths.len() <= usize::MAX,
    ensures
        forall|k: int|
            0 <= k < spec_kept(paths, ignored).len() ==> #[trigger] spec_kept(paths, ignored)[k]
                < paths.len() && !spec_is_ignored(
                paths[spec_kept(paths, ignored)[k] as int],
                ignored,
            ),
        forall|k1: int, k2: int|
            0 <= k1 < k2 < spec_kept(paths, ignored).len() ==> #[trigger] spec_kept(
                paths,
                ignored,
            )[k1] < #[trigger] spec_kept(paths, ignored)[k2],
    decreases paths.len(),
{
    if paths.len() > 0 {
        let prefix = paths.drop_last();
        let kp = spec_kept(prefix, ignored);
        let kk = spec_kept(paths, ignored);
        lemma_kept_not_ignored(prefix, ignored);
        assert(forall|i: int| 0 <= i < prefix.len() ==> prefix[i] == paths[i]);
        if spec_is_ignored(paths.last(), ignored) {
            assert(kk == kp);
            assert forall|k: int| 0 <= k < kk.len() implies #[trigger] kk[k] < paths.len()
                && !spec_is_ignored(paths[kk[k] as int], ignored) by {
                assert(kk[k] == kp[k]);
                assert(prefix[kp[k] as int] == paths[kp[k] as int]);
            }
        } else {
            assert(kk == kp.push((paths.len() - 1) as usize));
            assert forall|k: int| 0 <= k < kk.len() implies #[trigger] kk[k] < paths.len()
                && !spec_is_ignored(paths[kk[k] as int], ignored) by {
                if k < kp.len() {
                    assert(kk[k] == kp[k]);
                    assert(prefix[kp[k] as int] == paths[kp[k] as int]);
                } else {
                    assert(kk[k] == (paths.len() - 1) as usize);
                }
            }
            assert forall|k1: int, k2: int| 0 <= k1 < k2 < kk.len() implies #[trigger] kk[k1]
                < #[trigger] kk[k2] by {
                if k2 < kp.len() {
                    assert(kk[k1] == kp[k1] && kk[k2] == kp[k2]);
                } else {
                    assert(kk[k2] == (paths.len() - 1) as usize);
                    assert(kk[k1] == kp[k1]);
                    assert(kp[k1] < prefix.len());
                }
            }
        }
    }
}

} // verus!

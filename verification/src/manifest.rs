//! The frame manifest builder: selects the image files of a frame source
//! directory, orders them naturally, and assigns each frame its display
//! duration, with a decelerating slow-motion ending.

use vstd::prelude::*;

use crate::natord::{natural_le_strings, sort_strings_natural};

verus! {

use vstd::relations::sorted_by;

/// The code point of `c` with ASCII letters folded to lower case.
pub open spec fn lower_code(c: char) -> u32 {
    if 65 <= c as u32 <= 90 {
        (c as u32 + 32) as u32
    } else {
        c as u32
    }
}

/// Whether two character sequences agree up to ASCII case.
pub open spec fn eq_ignore_ascii_case(a: Seq<char>, b: Seq<char>) -> bool {
    a.len() == b.len() && forall|i: int|
        0 <= i < a.len() ==> lower_code(#[trigger] a[i]) == lower_code(b[i])
}

/// The index of the last dot in `s`, or `-1` when `s` holds none.
pub open spec fn last_dot(s: Seq<char>) -> int
    decreases s.len(),
{
    if s.len() == 0 {
        -1
    } else if s.last() as u32 == 46 {
        s.len() - 1
    } else {
        last_dot(s.drop_last())
    }
}

/// A recognized image extension, compared without regard to ASCII case.
pub open spec fn image_extension(e: Seq<char>) -> bool {
    ||| eq_ignore_ascii_case(e, "png"@)
    ||| eq_ignore_ascii_case(e, "jpg"@)
    ||| eq_ignore_ascii_case(e, "jpeg"@)
    ||| eq_ignore_ascii_case(e, "webp"@)
}

/// A filename that qualifies for the manifest: it has an extension — a last
/// dot that is neither its first character nor absent — and that extension
/// is a recognized image type.
pub open spec fn is_image_filename_spec(s: Seq<char>) -> bool {
    let p = last_dot(s);
    p > 0 && image_extension(s.skip(p + 1))
}

/// The qualifying test as a relation value, the form `filter` takes.
pub open spec fn is_image_string() -> spec_fn(String) -> bool {
    |s: String| is_image_filename_spec(s@)
}

/// The ASCII-lower-cased code point of a character.
fn lower32(c: char) -> (r: u32)
    ensures
        r == lower_code(c),
{
    let x = c as u32;
    if 65 <= x && x <= 90 {
        x + 32
    } else {
        x
    }
}

/// Whether the suffix of `s` starting at `from` equals `pat` up to ASCII
/// case.
pub fn suffix_eq_ci(s: &str, from: usize, pat: &str) -> (r: bool)
    requires
        from <= s@.len(),
    ensures
        r == eq_ignore_ascii_case(s@.skip(from as int), pat@),
{
    let n = s.unicode_len();
    let m = pat.unicode_len();
    if n - from != m {
        return false;
    }
    let mut i: usize = 0;
    while i < m
        invariant
            n == s@.len(),
            m == pat@.len(),
            from + m == n,
            0 <= i <= m,
            forall|k: int|
                0 <= k < i ==> lower_code(#[trigger] s@[from + k]) == lower_code(pat@[k]),
        decreases m - i,
    {
        if lower32(s.get_char(from + i)) != lower32(pat.get_char(i)) {
            proof {
                assert(s@.skip(from as int)[i as int] == s@[from + i]);
            }
            return false;
        }
        i = i + 1;
    }
    proof {
        assert forall|k: int| 0 <= k < m implies lower_code(
            #[trigger] s@.skip(from as int)[k],
        ) == lower_code(pat@[k]) by {
            assert(s@.skip(from as int)[k] == s@[from + k]);
        }
    }
    true
}

/// One past the index of the last dot of `name`, or zero when `name` holds
/// none.
pub fn scan_last_dot(name: &str) -> (k: usize)
    ensures
        0 <= k <= name@.len(),
        k == 0 ==> last_dot(name@) == -1,
        k > 0 ==> last_dot(name@) == k - 1 && name@[k - 1] as u32 == 46,
{
    let n = name.unicode_len();
    let mut k = n;
    proof {
        assert(name@.take(n as int) =~= name@);
    }
    loop
        invariant
            n == name@.len(),
            0 <= k <= n,
            last_dot(name@) == last_dot(name@.take(k as int)),
        ensures
            0 <= k <= n,
            k == 0 ==> last_dot(name@) == -1,
            k > 0 ==> last_dot(name@) == k - 1 && name@[k - 1] as u32 == 46,
        decreases k,
    {
        if k == 0 {
            proof {
                assert(name@.take(0).len() == 0);
            }
            break ;
        }
        let c = name.get_char(k - 1) as u32;
        proof {
            assert(name@.take(k as int).last() == name@[k - 1]);
            assert(name@.take(k as int).drop_last() =~= name@.take(k - 1));
        }
        if c == 46 {
            break ;
        }
        k = k - 1;
    }
    k
}

/// Whether a filename qualifies for the manifest.
pub fn is_image_filename(name: &str) -> (r: bool)
    ensures
        r == is_image_filename_spec(name@),
{
    let k = scan_last_dot(name);
    if k <= 1 {
        return false;
    }
    let p1 = suffix_eq_ci(name, k, "png");
    let p2 = suffix_eq_ci(name, k, "jpg");
    let p3 = suffix_eq_ci(name, k, "jpeg");
    let p4 = suffix_eq_ci(name, k, "webp");
    p1 || p2 || p3 || p4
}

/// Keeps exactly the filenames that qualify for the manifest, in their
/// incoming order.
pub fn select_image_files(names: &Vec<String>) -> (r: Vec<String>)
    ensures
        r@ == names@.filter(is_image_string()),
{
    broadcast use Seq::lemma_filter_push;

    let mut out: Vec<String> = Vec::new();
    let mut i: usize = 0;
    proof {
        assert(names@.take(0).filter(is_image_string()) =~= Seq::<String>::empty());
    }
    while i < names.len()
        invariant
            0 <= i <= names@.len(),
            out@ == names@.take(i as int).filter(is_image_string()),
        decreases names@.len() - i,
    {
        proof {
            assert(names@.take(i + 1) =~= names@.take(i as int).push(names@[i as int]));
            names@.take(i as int).lemma_filter_push(names@[i as int], is_image_string());
        }
        if is_image_filename(names[i].as_str()) {
            out.push(names[i].clone());
        }
        i = i + 1;
    }
    proof {
        assert(names@.take(names@.len() as int) =~= names@);
    }
    out
}

/// One frame of the manifest: the file's path below the frame source
/// directory, and how long it is displayed, in microseconds.
#[derive(Debug)]
pub struct FrameEntry {
    pub path: String,
    pub duration_micros: u64,
}

/// How many frames at the end of the sequence play at the slow ending rate.
pub const SLOW_ENDING_FRAMES: usize = 5;

/// The display duration of a slow ending frame, in microseconds: one over
/// the fixed slow ending rate of two frames per second.
pub const SLOW_ENDING_DURATION_MICROS: u64 = 500000;

/// The display duration of an ordinary frame at `fps` frames per second, in
/// microseconds, rounded to the nearest microsecond.
pub open spec fn normal_duration_micros(fps: u32) -> u64
    recommends
        1 <= fps,
{
    ((1000000 + (fps as int) / 2) / (fps as int)) as u64
}

/// The display duration of the frame at position `idx` among `n` frames:
/// the last `SLOW_ENDING_FRAMES` frames (or all of them, when fewer exist)
/// play at the slow ending rate, all earlier ones at the requested rate.
pub open spec fn frame_duration_micros(idx: int, n: int, fps: u32) -> u64 {
    if idx + SLOW_ENDING_FRAMES >= n {
        SLOW_ENDING_DURATION_MICROS
    } else {
        normal_duration_micros(fps)
    }
}

/// Why no manifest could be built.
#[derive(Debug, Clone, Copy, PartialEq, Eq, Structural)]
pub enum ManifestError {
    EmptyManifest,
}

impl ManifestError {
    /// The message recorded for a job whose frame source holds no image
    /// files.
    pub fn message(&self) -> (r: String)
        ensures
            r@ == "No image files found"@,
    {
        "No image files found".to_owned()
    }
}

/// How a finished manifest relates to the qualifying filenames `q` through
/// one ordering `sn` of them: `sn` holds exactly the names of `q` in
/// natural order, and entry `i` points at `sn[i]` below the frame source
/// directory and carries the duration of position `i`.
pub open spec fn manifest_arrangement(
    entries: Seq<FrameEntry>,
    dir: Seq<char>,
    q: Seq<String>,
    sn: Seq<String>,
    fps: u32,
) -> bool {
    &&& sn.to_multiset() == q.to_multiset()
    &&& sorted_by(sn, natural_le_strings())
    &&& entries.len() == sn.len()
    &&& forall|i: int|
        0 <= i < sn.len() ==> (#[trigger] entries[i]).path@ == dir + seq!['/'] + sn[i]@
    &&& forall|i: int|
        0 <= i < sn.len() ==> (#[trigger] entries[i]).duration_micros == frame_duration_micros(
            i,
            sn.len() as int,
            fps,
        )
}

/// A manifest that matches the qualifying filenames `q` through some
/// natural-order arrangement of them.
pub open spec fn manifest_ok(entries: Seq<FrameEntry>, dir: Seq<char>, q: Seq<String>, fps: u32) -> bool {
    exists|sn: Seq<String>| #[trigger] manifest_arrangement(entries, dir, q, sn, fps)
}

/// Builds the ordered frame manifest for one job: keeps the qualifying
/// image files among `names`, orders them naturally, and assigns each frame
/// its display duration.  Fails with `EmptyManifest` exactly when no
/// qualifying file exists.
#[verifier::rlimit(60)]
pub fn build_frame_manifest(frames_dir: &str, names: &Vec<String>, fps: u32) -> (r: Result<
    Vec<FrameEntry>,
    ManifestError,
>)
    requires
        1 <= fps <= 60,
    ensures
        match r {
            Ok(entries) => names@.filter(is_image_string()).len() > 0 && manifest_ok(
                entries@,
                frames_dir@,
                names@.filter(is_image_string()),
                fps,
            ),
            Err(e) => e == ManifestError::EmptyManifest && names@.filter(
                is_image_string(),
            ).len() == 0,
        },
{
    broadcast use vstd::seq_lib::group_to_multiset_ensures;

    let ghost q = names@.filter(is_image_string());
    let selected = select_image_files(names);
    let sorted = sort_strings_natural(selected);
    let n = sorted.len();
    proof {
        assert(sorted@.len() == sorted@.to_multiset().len());
        assert(q.len() == q.to_multiset().len());
    }
    if n == 0 {
        return Err(ManifestError::EmptyManifest);
    }
    let normal: u64 = (1000000u64 + (fps as u64) / 2) / (fps as u64);
    let mut entries: Vec<FrameEntry> = Vec::new();
    let mut i: usize = 0;
    while i < n
        invariant
            n == sorted@.len(),
            0 <= i <= n,
            1 <= fps <= 60,
            normal == normal_duration_micros(fps),
            entries@.len() == i,
            forall|k: int|
                0 <= k < i ==> (#[trigger] entries@[k]).path@ == frames_dir@ + seq!['/']
                    + sorted@[k]@,
            forall|k: int|
                0 <= k < i ==> (#[trigger] entries@[k]).duration_micros == frame_duration_micros(
                    k,
                    n as int,
                    fps,
                ),
        decreases n - i,
    {
        let mut p = frames_dir.to_owned();
        p.append("/");
        p.append(sorted[i].as_str());
        proof {
            reveal_strlit("/");
            assert("/"@ =~= seq!['/']);
        }
        let d = if n - i <= SLOW_ENDING_FRAMES {
            SLOW_ENDING_DURATION_MICROS
        } else {
            normal
        };
        entries.push(FrameEntry { path: p, duration_micros: d });
        i = i + 1;
    }
    proof {
        assert(manifest_arrangement(entries@, frames_dir@, q, sorted@, fps));
        assert(q.len() == n);
        assert(manifest_ok(entries@, frames_dir@, q, fps));
    }
    Ok(entries)
}

} // verus!

//! The encoder invoker's pure half: renders the concat manifest the
//! external encoder reads, builds the encoder's argument list, and computes
//! the job paths.  Spawning the process and writing files stay with the
//! caller.

use vstd::prelude::*;

use crate::manifest::FrameEntry;
use crate::numfmt::duration_str_spec;
use crate::numfmt::format_duration_micros;

verus! {

/// How one character is written inside the single-quoted path of a
/// manifest line: a single quote is closed, escaped and reopened; any other
/// character stands as it is.
pub open spec fn escape_quote_char(c: char) -> Seq<char> {
    if c as u32 == 39 {
        seq!['\'', '\\', '\'', '\'']
    } else {
        seq![c]
    }
}

/// A path with every single quote escaped for the manifest.
pub open spec fn escaped(s: Seq<char>) -> Seq<char>
    decreases s.len(),
{
    if s.len() == 0 {
        Seq::empty()
    } else {
        escaped(s.drop_last()) + escape_quote_char(s.last())
    }
}

proof fn lemma_escaped_append(u: Seq<char>, v: Seq<char>)
    ensures
        escaped(u + v) == escaped(u) + escaped(v),
    decreases v.len(),
{
    if v.len() == 0 {
        assert(u + v =~= u);
        assert(escaped(u) + escaped(v) =~= escaped(u));
    } else {
        lemma_escaped_append(u, v.drop_last());
        assert((u + v).drop_last() =~= u + v.drop_last());
        assert((u + v).last() == v.last());
        assert(escaped(u) + escaped(v.drop_last()) + escape_quote_char(v.last()) =~= escaped(u)
            + escaped(v));
    }
}

proof fn lemma_escaped_plain(v: Seq<char>)
    requires
        forall|k: int| 0 <= k < v.len() ==> (#[trigger] v[k]) as u32 != 39,
    ensures
        escaped(v) == v,
    decreases v.len(),
{
    if v.len() > 0 {
        lemma_escaped_plain(v.drop_last());
        assert(v.drop_last() + seq![v.last()] =~= v);
    }
}

/// Escapes every single quote of `s` for the manifest's quoted-path form.
pub fn escape_single_quotes(s: &str) -> (r: String)
    ensures
        r@ == escaped(s@),
{
    let n = s.unicode_len();
    let mut out = String::new();
    let mut start: usize = 0;
    let mut i: usize = 0;
    while i < n
        invariant
            n == s@.len(),
            0 <= start <= i <= n,
            out@ == escaped(s@.take(start as int)),
            forall|k: int| start <= k < i ==> (#[trigger] s@[k]) as u32 != 39,
        decreases n - i,
    {
        let c = s.get_char(i) as u32;
        if c == 39 {
            let plain = s.substring_char(start, i);
            out.append(plain);
            out.append("'\\''");
            proof {
                reveal_strlit("'\\''");
                assert(s@.take(start as int) + s@.subrange(start as int, i as int) =~= s@.take(
                    i as int,
                ));
                lemma_escaped_append(s@.take(start as int), s@.subrange(start as int, i as int));
                lemma_escaped_plain(s@.subrange(start as int, i as int));
                assert(s@.take(i as int) + seq![s@[i as int]] =~= s@.take(i + 1));
                lemma_escaped_append(s@.take(i as int), seq![s@[i as int]]);
                assert(seq![s@[i as int]].drop_last() =~= Seq::<char>::empty());
                assert(seq![s@[i as int]].last() == s@[i as int]);
                assert(escaped(Seq::<char>::empty()) == Seq::<char>::empty());
                assert(escaped(seq![s@[i as int]]) == escaped(Seq::<char>::empty())
                    + escape_quote_char(s@[i as int]));
                assert(escaped(seq![s@[i as int]]) =~= escape_quote_char(s@[i as int]));
                assert(escape_quote_char(s@[i as int]) =~= "'\\''"@);
                assert(out@ =~= escaped(s@.take(i + 1)));
            }
            start = i + 1;
        }
        i = i + 1;
    }
    let tail = s.substring_char(start, n);
    out.append(tail);
    proof {
        assert(s@.take(start as int) + s@.subrange(start as int, n as int) =~= s@.take(n as int));
        lemma_escaped_append(s@.take(start as int), s@.subrange(start as int, n as int));
        lemma_escaped_plain(s@.subrange(start as int, n as int));
        assert(s@.take(n as int) =~= s@);
    }
    out
}

/// One line pair of the concat manifest: the frame's path, single-quoted
/// with quotes escaped, then its display duration in seconds with six
/// decimal places.
pub open spec fn manifest_line(e: FrameEntry) -> Seq<char> {
    "file '"@ + escaped(e.path@) + "'\nduration "@ + duration_str_spec(e.duration_micros) + "\n"@
}

/// The whole concat manifest: the line pair of every frame, in manifest
/// order.
pub open spec fn rendered_manifest(entries: Seq<FrameEntry>) -> Seq<char>
    decreases entries.len(),
{
    if entries.len() == 0 {
        Seq::empty()
    } else {
        rendered_manifest(entries.drop_last()) + manifest_line(entries.last())
    }
}

/// Renders the manifest file content the external encoder's concat input
/// mode reads.
pub fn render_concat_manifest(entries: &Vec<FrameEntry>) -> (r: String)
    ensures
        r@ == rendered_manifest(entries@),
{
    let n = entries.len();
    let mut out = String::new();
    let mut i: usize = 0;
    proof {
        assert(entries@.take(0).len() == 0);
    }
    while i < n
        invariant
            n == entries@.len(),
            0 <= i <= n,
            out@ == rendered_manifest(entries@.take(i as int)),
        decreases n - i,
    {
        out.append("file '");
        let quoted = escape_single_quotes(entries[i].path.as_str());
        out.append(quoted.as_str());
        out.append("'\nduration ");
        let d = format_duration_micros(entries[i].duration_micros);
        out.append(d.as_str());
        out.append("\n");
        proof {
            assert(entries@.take(i + 1).drop_last() =~= entries@.take(i as int));
            assert(entries@.take(i + 1).last() == entries@[i as int]);
            assert(out@ =~= rendered_manifest(entries@.take(i + 1)));
        }
        i = i + 1;
    }
    proof {
        assert(entries@.take(n as int) =~= entries@);
    }
    out
}

/// The argument list handed to the external encoder: concat input mode with
/// the relaxed path check that absolute paths need, the manifest as input, the
/// rotation filter when one applies, a widely compatible codec at a
/// near-lossless quality target and a fast preset, 4:2:0 chroma
/// subsampling, streaming-friendly output layout, machine-parsable progress
/// on the diagnostic stream, overwrite without prompting, and the
/// destination last.  The frame rate is carried by the manifest's per-frame
/// durations rather than by a rate argument.
pub open spec fn encoder_args_spec(
    list_path: Seq<char>,
    filter: Option<Seq<char>>,
    output_path: Seq<char>,
) -> Seq<Seq<char>> {
    let head = seq!["-f"@, "concat"@, "-safe"@, "0"@, "-i"@, list_path];
    let mid = match filter {
        Some(f) => seq!["-vf"@, f],
        None => Seq::empty(),
    };
    let tail = seq![
        "-c:v"@,
        "libx264"@,
        "-crf"@,
        "18"@,
        "-preset"@,
        "veryfast"@,
        "-pix_fmt"@,
        "yuv420p"@,
        "-movflags"@,
        "+faststart"@,
        "-progress"@,
        "pipe:2"@,
        "-y"@,
        output_path,
    ];
    head + mid + tail
}

/// Builds the external encoder's argument list.
pub fn build_encoder_args(list_path: &str, rotation_filter: &Option<String>, output_path: &str) -> (r:
    Vec<String>)
    ensures
        r.deep_view() == encoder_args_spec(
            list_path@,
            rotation_filter.deep_view(),
            output_path@,
        ),
{
    let mut args: Vec<String> = Vec::new();
    args.push("-f".to_owned());
    args.push("concat".to_owned());
    args.push("-safe".to_owned());
    args.push("0".to_owned());
    args.push("-i".to_owned());
    args.push(list_path.to_owned());
    if let Some(filter) = rotation_filter {
        args.push("-vf".to_owned());
        args.push(filter.clone());
    }
    args.push("-c:v".to_owned());
    args.push("libx264".to_owned());
    args.push("-crf".to_owned());
    args.push("18".to_owned());
    args.push("-preset".to_owned());
    args.push("veryfast".to_owned());
    args.push("-pix_fmt".to_owned());
    args.push("yuv420p".to_owned());
    args.push("-movflags".to_owned());
    args.push("+faststart".to_owned());
    args.push("-progress".to_owned());
    args.push("pipe:2".to_owned());
    args.push("-y".to_owned());
    args.push(output_path.to_owned());
    proof {
        assert(args.deep_view() =~= encoder_args_spec(
            list_path@,
            rotation_filter.deep_view(),
            output_path@,
        ));
    }
    args
}

/// The directory that holds one job's uploaded frames.
pub fn get_frames_directory(job_id: &str) -> (r: String)
    ensures
        r@ == "/tmp/timelapse/"@ + job_id@ + "/frames"@,
{
    let mut p = "/tmp/timelapse/".to_owned();
    p.append(job_id);
    p.append("/frames");
    p
}

/// The path of one job's encoded output file.
pub fn get_output_path(job_id: &str) -> (r: String)
    ensures
        r@ == "/tmp/timelapse/"@ + job_id@ + "/output.mp4"@,
{
    let mut p = "/tmp/timelapse/".to_owned();
    p.append(job_id);
    p.append("/output.mp4");
    p
}

/// The path of the transient manifest file written for one job's encode
/// attempt, beside the frames directory.
pub fn get_manifest_file_path(job_id: &str) -> (r: String)
    ensures
        r@ == "/tmp/timelapse/"@ + job_id@ + "/filelist.txt"@,
{
    let mut p = "/tmp/timelapse/".to_owned();
    p.append(job_id);
    p.append("/filelist.txt");
    p
}

} // verus!

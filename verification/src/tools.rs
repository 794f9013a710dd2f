//! What the programs beside the editor are asked, and what their ends mean.

use vstd::prelude::*;

use crate::i18n::string_views;
use crate::text::{chars_of, decimal, text_of};
use crate::wording::{number_text, together};

verus! {

/// How `ffmpeg` hands frames over: raw pixels on its output.
pub open spec fn raw_output() -> Seq<Seq<char>> {
    seq!["-f"@, "rawvideo"@, "-pix_fmt"@, "rgba"@, "-"@]
}

/// What `gifsicle` is asked ahead of the file: inter-frame differencing, and
/// lossy compression where it was set, written over the file itself.
pub open spec fn optimizing(lossy: u16) -> Seq<Seq<char>> {
    if lossy > 0 {
        seq!["-O3"@, "--lossy="@ + decimal(lossy as nat), "-b"@]
    } else {
        seq!["-O3"@, "-b"@]
    }
}

/// What `ffmpeg` is asked behind the file to decode it: its filters, if any,
/// and a backstop of `cap` frames.
pub open spec fn decoding(filters: Option<&str>, cap: u64) -> Seq<Seq<char>> {
    (match filters {
        Some(filters) => seq!["-vf"@, filters@],
        None => seq![],
    }) + seq!["-frames:v"@, decimal(cap as nat)] + raw_output()
}

/// What `ffmpeg` is asked behind the file for one frame at the size of the
/// import.
pub open spec fn sampling(width: u32, height: u32) -> Seq<Seq<char>> {
    seq![
        "-frames:v"@,
        "1"@,
        "-vf"@,
        "scale="@ + decimal(width as nat) + ":"@ + decimal(height as nat),
    ] + raw_output()
}

fn owned(text: &str) -> (r: String)
    ensures
        r@ == text@,
{
    text_of(&chars_of(text))
}

fn push_raw_output(args: &mut Vec<String>)
    ensures
        string_views(final(args)@) == string_views(old(args)@) + raw_output(),
{
    args.push(owned("-f"));
    args.push(owned("rawvideo"));
    args.push(owned("-pix_fmt"));
    args.push(owned("rgba"));
    args.push(owned("-"));
}

/// The arguments of `gifsicle` ahead of the file.
pub fn optimize_args(lossy: u16) -> (r: Vec<String>)
    ensures
        string_views(r@) == optimizing(lossy),
{
    let mut args: Vec<String> = Vec::new();
    args.push(owned("-O3"));
    if lossy > 0 {
        args.push(together("--lossy=", &number_text(lossy as u64)));
    }
    args.push(owned("-b"));
    args
}

/// The arguments of `ffmpeg` behind the file it decodes.
pub fn decode_args(filters: Option<&str>, cap: u64) -> (r: Vec<String>)
    ensures
        string_views(r@) == decoding(filters, cap),
{
    let mut args: Vec<String> = Vec::new();
    if let Some(filters) = filters {
        args.push(owned("-vf"));
        args.push(owned(filters));
    }
    args.push(owned("-frames:v"));
    args.push(number_text(cap));
    push_raw_output(&mut args);
    args
}

/// The arguments of `ffmpeg` behind the file it takes one frame of.
pub fn sample_args(width: u32, height: u32) -> (r: Vec<String>)
    ensures
        string_views(r@) == sampling(width, height),
{
    let wide = together("scale=", &number_text(width as u64));
    let scale = together(&together(&wide, ":"), &number_text(height as u64));
    let mut args: Vec<String> = Vec::new();
    args.push(owned("-frames:v"));
    args.push(owned("1"));
    args.push(owned("-vf"));
    args.push(scale);
    push_raw_output(&mut args);
    args
}

/// How a run of `gifsicle` ended.
#[derive(Clone, Copy, PartialEq, Eq, Debug, Structural)]
pub enum Run {
    Succeeded,
    /// It ran and gave up.
    Failed,
    /// There is no such program.
    Missing,
    /// It is there and would not start.
    Unstarted,
}

/// Whether the file was optimized. A missing `gifsicle` is not an error: the
/// unoptimized file is still a valid GIF.
pub fn optimized(run: Run) -> (r: Result<bool, Run>)
    ensures
        match r {
            Ok(done) => (done <==> run is Succeeded) && (!done <==> run is Missing),
            Err(e) => e == run && (run is Failed || run is Unstarted),
        },
{
    match run {
        Run::Succeeded => Ok(true),
        Run::Missing => Ok(false),
        _ => Err(run),
    }
}

} // verus!

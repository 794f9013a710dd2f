//! The command lines of the programs beside the editor.

use gifkino::tools::{decode_args, optimize_args, optimized, sample_args, Run};

#[test]
fn lossy_compression_is_asked_for_only_where_it_was_set() {
    assert_eq!(optimize_args(0), ["-O3", "-b"]);
    assert_eq!(optimize_args(80), ["-O3", "--lossy=80", "-b"]);
}

#[test]
fn a_decode_carries_its_filters_and_its_backstop() {
    assert_eq!(
        decode_args(None, 2000),
        ["-frames:v", "2000", "-f", "rawvideo", "-pix_fmt", "rgba", "-"]
    );
    assert_eq!(
        decode_args(Some("fps=10,scale=64:48"), 7),
        [
            "-vf",
            "fps=10,scale=64:48",
            "-frames:v",
            "7",
            "-f",
            "rawvideo",
            "-pix_fmt",
            "rgba",
            "-"
        ]
    );
}

#[test]
fn a_sample_is_one_frame_at_the_size_of_the_import() {
    assert_eq!(
        sample_args(640, 360),
        [
            "-frames:v",
            "1",
            "-vf",
            "scale=640:360",
            "-f",
            "rawvideo",
            "-pix_fmt",
            "rgba",
            "-"
        ]
    );
}

#[test]
fn a_missing_optimizer_is_no_error() {
    assert_eq!(optimized(Run::Succeeded), Ok(true));
    assert_eq!(optimized(Run::Missing), Ok(false));
    assert_eq!(optimized(Run::Failed), Err(Run::Failed));
    assert_eq!(optimized(Run::Unstarted), Err(Run::Unstarted));
}

use vstd::prelude::*;

use crate::recorded::{basename, basename_chars};
use crate::text::{decimal, push_chars, push_decimal, push_str};

verus! {

/// The name of the thumbnail image of a recording: its base name and `.jpg`.
pub open spec fn thumbnail_file_text(filename: Seq<char>) -> Seq<char> {
    basename(filename) + ".jpg"@
}

/// The URL under which an image file of the thumbnail directory is served.
pub open spec fn thumbnail_path_url_text(image_name: Seq<char>) -> Seq<char> {
    "/thumbnails/"@ + image_name
}

/// The URL of the thumbnail of a recording.
pub open spec fn thumbnail_url_text(filename: Seq<char>) -> Seq<char> {
    "/thumbnails/"@ + basename(filename) + ".jpg"@
}

/// The name of the thumbnail image of a recording.
pub fn thumbnail_file_name(filename: &str) -> (name: String)
    ensures
        name@ == thumbnail_file_text(filename@),
{
    let base = basename_chars(filename);
    let mut name = String::new();
    push_chars(&mut name, &base);
    push_str(&mut name, ".jpg");
    assert(name@ =~= thumbnail_file_text(filename@));
    name
}

/// The URL under which the image `image_name` of the thumbnail directory is served.
pub fn thumbnail_path_url(image_name: &str) -> (url: String)
    ensures
        url@ == thumbnail_path_url_text(image_name@),
{
    let mut url = String::new();
    push_str(&mut url, "/thumbnails/");
    push_str(&mut url, image_name);
    url
}

/// The URL of the thumbnail of a recording.
pub fn thumbnail_url(filename: &str) -> (url: String)
    ensures
        url@ == thumbnail_url_text(filename@),
{
    let base = basename_chars(filename);
    let mut url = String::new();
    push_str(&mut url, "/thumbnails/");
    push_chars(&mut url, &base);
    push_str(&mut url, ".jpg");
    assert(url@ =~= thumbnail_url_text(filename@));
    url
}

/// The URL of an existing thumbnail is the URL that generating it returns: the image
/// is written under the recording's thumbnail file name, and the URL of that file is
/// the recording's thumbnail URL.
pub proof fn law_thumbnail_url_of_generated_image(filename: Seq<char>)
    ensures
        thumbnail_path_url_text(thumbnail_file_text(filename)) == thumbnail_url_text(filename),
{
    assert(thumbnail_path_url_text(thumbnail_file_text(filename)) =~= thumbnail_url_text(
        filename,
    ));
}

/// The ffmpeg arguments that grab one frame at `offset_seconds` of `input` into the
/// image file `output`.
pub open spec fn ffmpeg_args_text(offset_seconds: u64, input: Seq<char>, output: Seq<char>) -> Seq<
    Seq<char>,
> {
    seq![
        "-ss"@,
        decimal(offset_seconds as nat),
        "-i"@,
        input,
        "-vframes"@,
        "1"@,
        "-f"@,
        "image2"@,
        "-y"@,
        output,
    ]
}

fn owned(s: &str) -> (r: String)
    ensures
        r@ == s@,
{
    let mut r = String::new();
    push_str(&mut r, s);
    r
}

/// The ffmpeg arguments that grab one frame at `offset_seconds` of `input` into the
/// image file `output`.
pub fn ffmpeg_args(offset_seconds: u64, input: &str, output: &str) -> (args: Vec<String>)
    ensures
        args@.map_values(|a: String| a@) == ffmpeg_args_text(offset_seconds, input@, output@),
{
    let mut offset = String::new();
    push_decimal(&mut offset, offset_seconds);
    let mut args: Vec<String> = Vec::new();
    args.push(owned("-ss"));
    args.push(offset);
    args.push(owned("-i"));
    args.push(owned(input));
    args.push(owned("-vframes"));
    args.push(owned("1"));
    args.push(owned("-f"));
    args.push(owned("image2"));
    args.push(owned("-y"));
    args.push(owned(output));
    assert(args@.map_values(|a: String| a@) =~= ffmpeg_args_text(offset_seconds, input@, output@));
    args
}

/// The error text of a failed ffmpeg run, with what it wrote to its error output.
pub open spec fn ffmpeg_failure_text(stderr: Seq<char>) -> Seq<char> {
    "ffmpeg failed: "@ + stderr
}

/// The error text of a failed ffmpeg run.
pub fn ffmpeg_failure(stderr: &str) -> (text: String)
    ensures
        text@ == ffmpeg_failure_text(stderr@),
{
    let mut text = String::new();
    push_str(&mut text, "ffmpeg failed: ");
    push_str(&mut text, stderr);
    text
}

} // verus!

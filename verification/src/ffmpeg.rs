use vstd::prelude::*;

use crate::playlist;
use crate::pls::{file_at, parse_spec, str_eq};

verus! {

/// Why a track could not be started: the playlist fetch failed, its text
/// or file list was unusable, or the decoder did not spawn.
#[derive(Clone, Copy, Debug, PartialEq, Eq, Structural)]
pub enum TrackError {
    Network,
    Parse,
    Spawn,
}

impl TrackError {
    /// A short description, for the host's log or screen.
    pub fn message(&self) -> (r: &'static str)
        ensures
            self is Network ==> r@ == "could not fetch playlist"@,
            self is Parse ==> r@ == "malformed playlist or empty file list"@,
            self is Spawn ==> r@ == "could not start decoder"@,
    {
        match self {
            TrackError::Network => "could not fetch playlist",
            TrackError::Parse => "malformed playlist or empty file list",
            TrackError::Spawn => "could not start decoder",
        }
    }
}

/// A locator that points at a remote playlist resource rather than a
/// local file: it starts with `http`.
pub open spec fn is_remote_spec(s: Seq<char>) -> bool {
    s.len() >= 4 && s.subrange(0, 4) == "http"@
}

/// Whether this locator must be resolved over the network before the
/// decoder can read it.
pub fn is_remote(url: &str) -> (r: bool)
    ensures
        r == is_remote_spec(url@),
{
    let n = url.unicode_len();
    if n < 4 {
        return false;
    }
    let head = url.substring_char(0, 4);
    str_eq(head, "http")
}

/// Pick the stream to play out of fetched playlist text: the file of its
/// first entry.  Malformed text and an empty file list are both a
/// `Parse` error, exactly as `parse_spec` reads the text.
pub fn first_stream_url(text: &str) -> (r: Result<String, TrackError>)
    ensures
        match r {
            Ok(u) => parse_spec(text@) matches Some(m) && m.number_of_entries > 0 && u@
                == file_at(m, 1u32),
            Err(e) => e is Parse && (parse_spec(text@) is None || (parse_spec(
                text@,
            ) matches Some(m) && m.number_of_entries == 0)),
        },
{
    match playlist::parse(text) {
        Ok(p) => {
            if p.number_of_entries == 0 {
                return Err(TrackError::Parse);
            }
            let mut files = p.files();
            let url = files.remove(0);
            Ok(url)
        },
        Err(_) => Err(TrackError::Parse),
    }
}

/// The fixed invocation of the external decoder: read the resolved
/// locator, write 2-channel signed 16-bit little-endian PCM at 44.1 kHz
/// to standard output.
pub fn decoder_args(url: &str) -> (r: Vec<String>)
    ensures
        r@.len() == 11,
        r@[0]@ == "-ac"@,
        r@[1]@ == "2"@,
        r@[2]@ == "-i"@,
        r@[3]@ == url@,
        r@[4]@ == "-f"@,
        r@[5]@ == "s16le"@,
        r@[6]@ == "-ar"@,
        r@[7]@ == "44.1k"@,
        r@[8]@ == "-acodec"@,
        r@[9]@ == "pcm_s16le"@,
        r@[10]@ == "-"@,
{
    let mut args: Vec<String> = Vec::new();
    args.push("-ac".to_owned());
    args.push("2".to_owned());
    args.push("-i".to_owned());
    args.push(url.to_owned());
    args.push("-f".to_owned());
    args.push("s16le".to_owned());
    args.push("-ar".to_owned());
    args.push("44.1k".to_owned());
    args.push("-acodec".to_owned());
    args.push("pcm_s16le".to_owned());
    args.push("-".to_owned());
    args
}

} // verus!

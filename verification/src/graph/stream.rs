//! Streams of a file, and codecs.
use vstd::prelude::*;

use crate::text::{cat2, cat5, decimal, number, opt_copy, opt_text, same_text};

verus! {

/// What a stream carries.
#[derive(Clone, Copy, Debug, PartialEq, Eq, Structural)]
pub enum StreamKind {
    Video,
    Audio,
    Subtitle,
    /// A chapter list: not a stream that ffmpeg can map by index, but one
    /// more port on an input node, wired like any other.
    Chapter,
    Other,
}

impl StreamKind {
    /// The single letter that stream labels such as "v:0" begin with.
    pub open spec fn letter_spec(self) -> Seq<char> {
        match self {
            StreamKind::Video => "v"@,
            StreamKind::Audio => "a"@,
            StreamKind::Subtitle => "s"@,
            StreamKind::Chapter => "c"@,
            StreamKind::Other => "?"@,
        }
    }

    /// The single letter that stream labels such as "v:0" begin with.
    pub fn letter(&self) -> (r: &'static str)
        ensures
            r@ == self.letter_spec(),
    {
        match self {
            StreamKind::Video => "v",
            StreamKind::Audio => "a",
            StreamKind::Subtitle => "s",
            StreamKind::Chapter => "c",
            StreamKind::Other => "?",
        }
    }

    /// The full word, for messages in which the letter would read badly.
    pub open spec fn noun_spec(self) -> Seq<char> {
        match self {
            StreamKind::Video => "video"@,
            StreamKind::Audio => "audio"@,
            StreamKind::Subtitle => "subtitle"@,
            StreamKind::Chapter => "chapters"@,
            StreamKind::Other => "other"@,
        }
    }

    /// The full word, for messages in which the letter would read badly.
    pub fn noun(&self) -> (r: &'static str)
        ensures
            r@ == self.noun_spec(),
    {
        match self {
            StreamKind::Video => "video",
            StreamKind::Audio => "audio",
            StreamKind::Subtitle => "subtitle",
            StreamKind::Chapter => "chapters",
            StreamKind::Other => "other",
        }
    }

    /// The kind that ffprobe's `codec_type` names.
    pub open spec fn of_codec_type_spec(name: Seq<char>) -> StreamKind {
        if name == "video"@ {
            StreamKind::Video
        } else if name == "audio"@ {
            StreamKind::Audio
        } else if name == "subtitle"@ {
            StreamKind::Subtitle
        } else {
            StreamKind::Other
        }
    }

    /// The kind that ffprobe's `codec_type` names.
    pub fn of_codec_type(name: &str) -> (r: StreamKind)
        ensures
            r == StreamKind::of_codec_type_spec(name@),
    {
        if same_text(name, "video") {
            StreamKind::Video
        } else if same_text(name, "audio") {
            StreamKind::Audio
        } else if same_text(name, "subtitle") {
            StreamKind::Subtitle
        } else {
            StreamKind::Other
        }
    }
}

/// A codec choice: pass a stream through unchanged, or re-encode it with a
/// named ffmpeg encoder.
#[derive(Debug, PartialEq, Eq)]
pub enum Codec {
    Copy,
    Encode(String),
}

pub enum CodecView {
    Copy,
    Encode(Seq<char>),
}

impl View for Codec {
    type V = CodecView;

    open spec fn view(&self) -> CodecView {
        match self {
            Codec::Copy => CodecView::Copy,
            Codec::Encode(name) => CodecView::Encode(name@),
        }
    }
}

impl Clone for Codec {
    fn clone(&self) -> (r: Codec)
        ensures
            r == *self,
    {
        match self {
            Codec::Copy => Codec::Copy,
            Codec::Encode(name) => Codec::Encode(name.clone()),
        }
    }
}

impl CodecView {
    /// Short label for display, e.g. "x265" for "libx265".
    pub open spec fn label(self) -> Seq<char> {
        match self {
            CodecView::Copy => "copy"@,
            CodecView::Encode(name) => if name == "libx264"@ {
                "x264"@
            } else if name == "libx265"@ {
                "x265"@
            } else if name == "libvpx-vp9"@ {
                "vp9"@
            } else if name == "libmp3lame"@ {
                "mp3"@
            } else if name == "libopus"@ {
                "opus"@
            } else {
                name
            },
        }
    }

    /// The encoder to name on the command line, if any.
    pub open spec fn ffmpeg_name(self) -> Option<Seq<char>> {
        match self {
            CodecView::Copy => None,
            CodecView::Encode(name) => Some(name),
        }
    }
}

/// The encoders that are offered for a kind when ffmpeg's own list is not
/// known.
pub open spec fn fallback_names(kind: StreamKind) -> Seq<Seq<char>> {
    match kind {
        StreamKind::Video => seq!["libx264"@, "libx265"@, "libvpx-vp9"@],
        StreamKind::Audio => seq!["aac"@, "libmp3lame"@, "libopus"@, "flac"@],
        StreamKind::Subtitle => seq!["mov_text"@, "srt"@],
        StreamKind::Chapter | StreamKind::Other => Seq::empty(),
    }
}

impl Codec {
    /// The encoders that are offered for a kind when ffmpeg's own list is not
    /// known.
    pub fn curated_fallback(kind: StreamKind) -> (r: Vec<Codec>)
        ensures
            r@.len() == fallback_names(kind).len(),
            forall|i: int|
                0 <= i < r@.len() ==> (#[trigger] r@[i])@ == CodecView::Encode(
                    fallback_names(kind)[i],
                ),
    {
        match kind {
            StreamKind::Video => vec![
                Codec::Encode("libx264".to_owned()),
                Codec::Encode("libx265".to_owned()),
                Codec::Encode("libvpx-vp9".to_owned()),
            ],
            StreamKind::Audio => vec![
                Codec::Encode("aac".to_owned()),
                Codec::Encode("libmp3lame".to_owned()),
                Codec::Encode("libopus".to_owned()),
                Codec::Encode("flac".to_owned()),
            ],
            StreamKind::Subtitle => vec![
                Codec::Encode("mov_text".to_owned()),
                Codec::Encode("srt".to_owned()),
            ],
            StreamKind::Chapter | StreamKind::Other => Vec::new(),
        }
    }

    /// Short label for display, e.g. "x265" for "libx265".
    pub fn label(&self) -> (r: &str)
        ensures
            r@ == self@.label(),
    {
        match self {
            Codec::Copy => "copy",
            Codec::Encode(name) => {
                let name = name.as_str();
                if same_text(name, "libx264") {
                    "x264"
                } else if same_text(name, "libx265") {
                    "x265"
                } else if same_text(name, "libvpx-vp9") {
                    "vp9"
                } else if same_text(name, "libmp3lame") {
                    "mp3"
                } else if same_text(name, "libopus") {
                    "opus"
                } else {
                    name
                }
            },
        }
    }

    /// The encoder to name on the command line, if any.
    pub fn ffmpeg_name(&self) -> (r: Option<&str>)
        ensures
            match r {
                Some(name) => self@.ffmpeg_name() == Some(name@),
                None => self@.ffmpeg_name() is None,
            },
    {
        match self {
            Codec::Copy => None,
            Codec::Encode(name) => Some(name.as_str()),
        }
    }
}

/// One stream of an input file.
#[derive(Debug)]
pub struct StreamInfo {
    /// The stream's index within the source file, as ffprobe reports it.
    pub index: usize,
    pub kind: StreamKind,
    pub codec: String,
    pub lang: Option<String>,
}

pub struct StreamView {
    pub index: usize,
    pub kind: StreamKind,
    pub codec: Seq<char>,
    pub lang: Option<Seq<char>>,
}

impl View for StreamInfo {
    type V = StreamView;

    open spec fn view(&self) -> StreamView {
        StreamView {
            index: self.index,
            kind: self.kind,
            codec: self.codec@,
            lang: opt_text(self.lang),
        }
    }
}

impl Clone for StreamInfo {
    fn clone(&self) -> (r: StreamInfo)
        ensures
            r == *self,
    {
        StreamInfo {
            index: self.index,
            kind: self.kind,
            codec: self.codec.clone(),
            lang: opt_copy(&self.lang),
        }
    }
}

impl StreamView {
    /// How the stream is shown: "v:0 h264 (eng)", or the chapter count.
    pub open spec fn label(self) -> Seq<char> {
        if self.kind == StreamKind::Chapter {
            "chapters: "@ + self.codec
        } else {
            let base = self.kind.letter_spec() + ":"@ + decimal(self.index as nat) + " "@
                + self.codec;
            match self.lang {
                Some(lang) => base + " ("@ + lang + ")"@,
                None => base,
            }
        }
    }
}

impl StreamInfo {
    /// How the stream is shown: "v:0 h264 (eng)", or the chapter count.
    pub fn label(&self) -> (r: String)
        ensures
            r@ == self@.label(),
    {
        if self.kind == StreamKind::Chapter {
            return cat2("chapters: ", self.codec.as_str());
        }
        let number = number(self.index as u128);
        let base = cat5(self.kind.letter(), ":", number.as_str(), " ", self.codec.as_str());
        match &self.lang {
            Some(lang) => {
                let mut s = base;
                s.append(" (");
                s.append(lang.as_str());
                s.append(")");
                s
            },
            None => base,
        }
    }
}

} // verus!

//! The nodes of the graph: what they hold, and what they ask ffmpeg for.
use vstd::prelude::*;

use super::chapter::{copy_chapters, Chapter, ChapterView};
use super::stream::{Codec, CodecView, StreamInfo, StreamKind, StreamView};
use super::wire::NodeId;
use crate::fields::{field_get, Entry, FieldMap, FlagSet};
use crate::text::{cat2, cat3, cat4, group_views, join, join_spec, opt_copy, opt_text, same_text, signed_decimal, signed_number, views};

verus! {

/// An input file.
pub struct InputNode {
    pub id: NodeId,
    pub path: String,
    /// Position of this input in the `ffmpeg -i` argument list, from zero.
    pub file_index: usize,
    pub streams: Vec<StreamInfo>,
    /// The chapters found in this input. Non-empty exactly when `streams`
    /// ends with a `StreamKind::Chapter` entry that makes them wireable.
    pub chapters: Vec<Chapter>,
    /// Further options for this input, each emitted as `-<key>` before its
    /// `-i`, with the value behind it unless the value is empty.
    pub extra_args: FieldMap,
    pub pos: (i64, i64),
    pub width: u16,
    /// Whether the file could not be read when the project was loaded.
    pub file_missing: bool,
}

#[verifier::ext_equal]
pub struct InputView {
    pub id: NodeId,
    pub path: Seq<char>,
    pub file_index: usize,
    pub streams: Seq<StreamView>,
    pub chapters: Seq<ChapterView>,
    pub extra_args: Seq<Entry>,
    pub pos: (i64, i64),
    pub width: u16,
    pub file_missing: bool,
}

impl View for InputNode {
    type V = InputView;

    open spec fn view(&self) -> InputView {
        InputView {
            id: self.id,
            path: self.path@,
            file_index: self.file_index,
            streams: views(self.streams@),
            chapters: views(self.chapters@),
            extra_args: self.extra_args@,
            pos: self.pos,
            width: self.width,
            file_missing: self.file_missing,
        }
    }
}

/// An output file.
pub struct OutputNode {
    pub id: NodeId,
    pub path: String,
    /// An explicit muxer, passed as `-f <name>`. `None` leaves it to ffmpeg to
    /// go by the path's extension.
    pub container: Option<String>,
    /// Further options for this output, emitted like an input's, just before
    /// the path.
    pub extra_args: FieldMap,
    pub pos: (i64, i64),
    pub width: u16,
}

#[verifier::ext_equal]
pub struct OutputView {
    pub id: NodeId,
    pub path: Seq<char>,
    pub container: Option<Seq<char>>,
    pub extra_args: Seq<Entry>,
    pub pos: (i64, i64),
    pub width: u16,
}

impl View for OutputNode {
    type V = OutputView;

    open spec fn view(&self) -> OutputView {
        OutputView {
            id: self.id,
            path: self.path@,
            container: opt_text(self.container),
            extra_args: self.extra_args@,
            pos: self.pos,
            width: self.width,
        }
    }
}

impl Clone for OutputNode {
    fn clone(&self) -> (r: OutputNode)
        ensures
            r@ == self@,
    {
        OutputNode {
            id: self.id,
            path: self.path.clone(),
            container: opt_copy(&self.container),
            extra_args: self.extra_args.clone(),
            pos: self.pos,
            width: self.width,
        }
    }
}

// ---------------------------------------------------------------------
// Curated option lists
// ---------------------------------------------------------------------

/// An option that the extra-arguments picker offers.
#[derive(Clone, Copy)]
pub struct ExtraArgKey {
    pub key: &'static str,
    /// Whether the option is a switch that takes no value.
    pub switch: bool,
    pub label: &'static str,
}

pub struct ExtraArgKeyView {
    pub key: Seq<char>,
    pub switch: bool,
    pub label: Seq<char>,
}

impl View for ExtraArgKey {
    type V = ExtraArgKeyView;

    open spec fn view(&self) -> ExtraArgKeyView {
        ExtraArgKeyView { key: self.key@, switch: self.switch, label: self.label@ }
    }
}

/// An option that is shown under its own name.
pub open spec fn plain_key(key: Seq<char>, switch: bool) -> ExtraArgKeyView {
    ExtraArgKeyView { key, switch, label: key }
}

fn arg_key(key: &'static str, switch: bool) -> (r: ExtraArgKey)
    ensures
        r@ == plain_key(key@, switch),
{
    ExtraArgKey { key, switch, label: key }
}

/// The input options that are offered: a shift for sync issues, looping and
/// reading at native rate, and the teletext decoder's own options where the
/// ffmpeg build has that decoder.
pub open spec fn input_keys(has_teletext_decoder: bool) -> Seq<ExtraArgKeyView> {
    let base = seq![
        plain_key("itsoffset"@, false),
        plain_key("stream_loop"@, false),
        plain_key("re"@, true),
    ];
    if has_teletext_decoder {
        base + seq![
            plain_key("txt_format"@, false),
            plain_key("txt_page"@, false),
            plain_key("txt_duration"@, false),
        ]
    } else {
        base
    }
}

/// The input options that are offered: a shift for sync issues, looping and
/// reading at native rate, and the teletext decoder's own options where the
/// ffmpeg build has that decoder.
pub fn input_extra_arg_keys(has_teletext_decoder: bool) -> (r: Vec<ExtraArgKey>)
    ensures
        views(r@) == input_keys(has_teletext_decoder),
{
    let mut keys = vec![
        arg_key("itsoffset", false),
        arg_key("stream_loop", false),
        arg_key("re", true),
    ];
    if has_teletext_decoder {
        keys.push(arg_key("txt_format", false));
        keys.push(arg_key("txt_page", false));
        keys.push(arg_key("txt_duration", false));
    }
    assert(views(keys@) == input_keys(has_teletext_decoder));
    keys
}

/// The output options that are offered: interleaving, common muxing knobs,
/// and stopping with the shortest mapped stream.
pub open spec fn output_keys() -> Seq<ExtraArgKeyView> {
    seq![
        plain_key("max_interleave_delta"@, false),
        plain_key("movflags"@, false),
        plain_key("avoid_negative_ts"@, false),
        plain_key("fflags"@, false),
        plain_key("shortest"@, true),
    ]
}

/// The output options that are offered: interleaving, common muxing knobs,
/// and stopping with the shortest mapped stream.
pub fn output_extra_arg_keys() -> (r: Vec<ExtraArgKey>)
    ensures
        views(r@) == output_keys(),
{
    let keys = vec![
        arg_key("max_interleave_delta", false),
        arg_key("movflags", false),
        arg_key("avoid_negative_ts", false),
        arg_key("fflags", false),
        arg_key("shortest", true),
    ];
    assert(views(keys@) == output_keys());
    keys
}

/// The stream metadata keys that are offered, whatever the stream's kind.
pub open spec fn metadata_keys() -> Seq<Seq<char>> {
    seq!["language"@, "title"@, "handler_name"@]
}

/// The stream metadata keys that are offered for a kind: those that survive
/// as stream tags in every common container.
pub fn metadata_keys_for(_kind: StreamKind) -> (r: Vec<&'static str>)
    ensures
        views(r@) == metadata_keys(),
{
    let keys = vec!["language", "title", "handler_name"];
    assert(views(keys@) == metadata_keys());
    keys
}

/// The disposition flags that are offered.
pub open spec fn disposition_names() -> Seq<Seq<char>> {
    seq![
        "default"@,
        "forced"@,
        "hearing_impaired"@,
        "visual_impaired"@,
        "original"@,
        "dub"@,
        "comment"@,
        "lyrics"@,
        "karaoke"@,
    ]
}

/// The disposition flags that are offered.
pub fn disposition_flags() -> (r: Vec<&'static str>)
    ensures
        views(r@) == disposition_names(),
{
    let flags = vec![
        "default",
        "forced",
        "hearing_impaired",
        "visual_impaired",
        "original",
        "dub",
        "comment",
        "lyrics",
        "karaoke",
    ];
    assert(views(flags@) == disposition_names());
    flags
}

// ---------------------------------------------------------------------
// Numbers in text fields
// ---------------------------------------------------------------------

/// What a field's text is worth, for a text that reads as a number of
/// seconds: the value in whole milliseconds, and the text of the value two
/// seconds later.
pub struct Numeral {
    pub text: String,
    pub millis: i64,
    pub padded: String,
}

pub struct NumeralView {
    pub text: Seq<char>,
    pub millis: i64,
    pub padded: Seq<char>,
}

impl View for Numeral {
    type V = NumeralView;

    open spec fn view(&self) -> NumeralView {
        NumeralView { text: self.text@, millis: self.millis, padded: self.padded@ }
    }
}

/// The first entry from `i` on for `text`.
pub open spec fn numeral_from(ns: Seq<NumeralView>, text: Seq<char>, i: int) -> Option<NumeralView>
    decreases ns.len() - i,
{
    if i >= ns.len() {
        None
    } else if ns[i].text == text {
        Some(ns[i])
    } else {
        numeral_from(ns, text, i + 1)
    }
}

/// What `text` is worth; `None` where it does not read as a number.
pub open spec fn numeral(ns: Seq<NumeralView>, text: Seq<char>) -> Option<NumeralView> {
    numeral_from(ns, text, 0)
}

/// What `text` is worth; `None` where it does not read as a number.
pub fn find_numeral<'a>(ns: &'a Vec<Numeral>, text: &str) -> (r: Option<&'a Numeral>)
    ensures
        match r {
            Some(n) => numeral(views(ns@), text@) == Some(n@),
            None => numeral(views(ns@), text@) is None,
        },
{
    let mut i: usize = 0;
    while i < ns.len()
        invariant
            i <= ns@.len(),
            numeral(views(ns@), text@) == numeral_from(views(ns@), text@, i as int),
        decreases ns@.len() - i,
    {
        if same_text(ns[i].text.as_str(), text) {
            return Some(&ns[i]);
        }
        i += 1;
    }
    None
}

// ---------------------------------------------------------------------
// Filters
// ---------------------------------------------------------------------

/// An effect that needs a `-filter_complex` graph.
#[derive(Clone, Copy, Debug, PartialEq, Eq, Structural)]
pub enum FilterName {
    /// Delays a track to fix an audio/video sync offset.
    Shift,
    Volume,
    Scale,
    Crop,
    Fade,
    /// Rotation in steps of 90 degrees, done in the pixels.
    Rotate,
    /// Cuts the stream down to a start and an end, either of them optional,
    /// and sets its timestamps back to zero.
    Trim,
}

/// `prefix` and the value of `key` as one part, or no part where it is unset.
pub open spec fn part(m: Seq<Entry>, key: Seq<char>, prefix: Seq<char>) -> Seq<Seq<char>> {
    match field_get(m, key) {
        Some(v) => seq![prefix + v],
        None => Seq::empty(),
    }
}

/// The value of `key`, or `default` where it is unset.
pub open spec fn field_or(m: Seq<Entry>, key: Seq<char>, default: Seq<char>) -> Seq<char> {
    match field_get(m, key) {
        Some(v) => v,
        None => default,
    }
}

impl FilterName {
    pub open spec fn label_spec(self) -> Seq<char> {
        match self {
            FilterName::Shift => "shift"@,
            FilterName::Volume => "volume"@,
            FilterName::Scale => "scale"@,
            FilterName::Crop => "crop"@,
            FilterName::Fade => "fade"@,
            FilterName::Rotate => "rotate"@,
            FilterName::Trim => "trim"@,
        }
    }

    pub fn label(&self) -> (r: &'static str)
        ensures
            r@ == self.label_spec(),
    {
        match self {
            FilterName::Shift => "shift",
            FilterName::Volume => "volume",
            FilterName::Scale => "scale",
            FilterName::Crop => "crop",
            FilterName::Fade => "fade",
            FilterName::Rotate => "rotate",
            FilterName::Trim => "trim",
        }
    }

    /// The kinds of stream that the filter is meaningful for.
    pub open spec fn applies_spec(self, kind: StreamKind) -> bool {
        match self {
            FilterName::Shift | FilterName::Fade | FilterName::Trim => kind == StreamKind::Video
                || kind == StreamKind::Audio,
            FilterName::Volume => kind == StreamKind::Audio,
            FilterName::Scale | FilterName::Crop | FilterName::Rotate => kind == StreamKind::Video,
        }
    }

    /// Whether the filter is meaningful for a kind of stream.
    pub fn applies_to(&self, kind: StreamKind) -> (r: bool)
        ensures
            r == self.applies_spec(kind),
    {
        match self {
            FilterName::Shift | FilterName::Fade | FilterName::Trim => kind == StreamKind::Video
                || kind == StreamKind::Audio,
            FilterName::Volume => kind == StreamKind::Audio,
            FilterName::Scale | FilterName::Crop | FilterName::Rotate => kind == StreamKind::Video,
        }
    }

    pub open spec fn fields_spec(self) -> Seq<Seq<char>> {
        match self {
            FilterName::Shift => seq!["seconds"@],
            FilterName::Volume => seq!["factor"@],
            FilterName::Scale => seq!["width"@, "height"@],
            FilterName::Crop => seq!["width"@, "height"@, "x"@, "y"@],
            FilterName::Fade => seq!["type"@, "start"@, "duration"@],
            FilterName::Rotate => seq!["direction"@],
            FilterName::Trim => seq!["start"@, "end"@],
        }
    }

    /// The parameters that can be set on the filter.
    pub fn fields(&self) -> (r: Vec<&'static str>)
        ensures
            views(r@) == self.fields_spec(),
    {
        let r = match self {
            FilterName::Shift => vec!["seconds"],
            FilterName::Volume => vec!["factor"],
            FilterName::Scale => vec!["width", "height"],
            FilterName::Crop => vec!["width", "height", "x", "y"],
            FilterName::Fade => vec!["type", "start", "duration"],
            FilterName::Rotate => vec!["direction"],
            FilterName::Trim => vec!["start", "end"],
        };
        assert(views(r@) == self.fields_spec());
        r
    }

    /// The values that a parameter accepts, for one that accepts a fixed set.
    pub open spec fn value_options_spec(self, key: Seq<char>) -> Option<Seq<Seq<char>>> {
        if self == FilterName::Rotate && key == "direction"@ {
            Some(seq!["90cw"@, "90ccw"@, "180"@])
        } else if self == FilterName::Fade && key == "type"@ {
            Some(seq!["in"@, "out"@])
        } else {
            None
        }
    }

    /// The values that a parameter accepts, for one that accepts a fixed set.
    pub fn value_options(&self, key: &str) -> (r: Option<Vec<&'static str>>)
        ensures
            match r {
                Some(v) => self.value_options_spec(key@) == Some(views(v@)),
                None => self.value_options_spec(key@) is None,
            },
    {
        if *self == FilterName::Rotate && same_text(key, "direction") {
            let v = vec!["90cw", "90ccw", "180"];
            assert(views(v@) == seq!["90cw"@, "90ccw"@, "180"@]);
            Some(v)
        } else if *self == FilterName::Fade && same_text(key, "type") {
            let v = vec!["in", "out"];
            assert(views(v@) == seq!["in"@, "out"@]);
            Some(v)
        } else {
            None
        }
    }

    /// The filter's expression in ffmpeg's filtergraph syntax for a stream of
    /// the given kind, or `None` where nothing usable is set: such a filter
    /// does nothing.
    ///
    /// - Shift delays: audio by whole milliseconds (`adelay`), anything else
    ///   by moving its timestamps (`setpts`).
    /// - Scale keeps the aspect ratio on a side that is not set.
    /// - Fade is `afade` for audio and `fade` for anything else.
    /// - Rotate is one or two transposes.
    /// - Trim is followed by a reset of the timestamps, since `trim` itself
    ///   keeps the original ones.
    pub open spec fn expression_spec(
        self,
        kind: StreamKind,
        m: Seq<Entry>,
        ns: Seq<NumeralView>,
    ) -> Option<Seq<char>> {
        match self {
            FilterName::Shift => match field_get(m, "seconds"@) {
                None => None,
                Some(seconds) => if kind == StreamKind::Audio {
                    match numeral(ns, seconds) {
                        Some(n) => Some(
                            "adelay=delays="@ + signed_decimal(n.millis as int) + ":all=1"@,
                        ),
                        None => None,
                    }
                } else {
                    Some("setpts=PTS+("@ + seconds + ")/TB"@)
                },
            },
            FilterName::Volume => match field_get(m, "factor"@) {
                None => None,
                Some(factor) => Some("volume=volume="@ + factor),
            },
            FilterName::Scale => if field_get(m, "width"@) is None && field_get(
                m,
                "height"@,
            ) is None {
                None
            } else {
                Some(
                    "scale=w="@ + field_or(m, "width"@, "-1"@) + ":h="@ + field_or(
                        m,
                        "height"@,
                        "-1"@,
                    ),
                )
            },
            FilterName::Crop => if field_get(m, "width"@) is None && field_get(
                m,
                "height"@,
            ) is None {
                None
            } else {
                Some(
                    "crop="@ + join_spec(
                        part(m, "width"@, "w="@) + part(m, "height"@, "h="@) + part(
                            m,
                            "x"@,
                            "x="@,
                        ) + part(m, "y"@, "y="@),
                        ":"@,
                    ),
                )
            },
            FilterName::Fade => match field_get(m, "type"@) {
                None => None,
                Some(t) => if t != "in"@ && t != "out"@ {
                    None
                } else {
                    Some(
                        (if kind == StreamKind::Audio {
                            "afade"@
                        } else {
                            "fade"@
                        }) + "=t="@ + t + ":st="@ + field_or(m, "start"@, "0"@) + ":d="@ + field_or(
                            m,
                            "duration"@,
                            "1"@,
                        ),
                    )
                },
            },
            FilterName::Rotate => match field_get(m, "direction"@) {
                None => None,
                Some(d) => if d == "90cw"@ {
                    Some("transpose=dir=1"@)
                } else if d == "90ccw"@ {
                    Some("transpose=dir=2"@)
                } else if d == "180"@ {
                    Some("transpose=dir=1,transpose=dir=1"@)
                } else {
                    None
                },
            },
            FilterName::Trim => {
                let parts = part(m, "start"@, "start="@) + part(m, "end"@, "end="@);
                if field_get(m, "start"@) is None && field_get(m, "end"@) is None {
                    None
                } else if kind == StreamKind::Audio {
                    Some("atrim="@ + join_spec(parts, ":"@) + ",asetpts=PTS-STARTPTS"@)
                } else {
                    Some("trim="@ + join_spec(parts, ":"@) + ",setpts=PTS-STARTPTS"@)
                }
            },
        }
    }

    /// The filter's expression in ffmpeg's filtergraph syntax for a stream of
    /// the given kind, or `None` where nothing usable is set: such a filter
    /// does nothing. `numerals` tells what the field texts are worth.
    pub fn expression(&self, kind: StreamKind, fields: &FieldMap, numerals: &Vec<Numeral>) -> (r:
        Option<String>)
        ensures
            opt_text(r) == self.expression_spec(kind, fields@, views(numerals@)),
    {
        match self {
            FilterName::Shift => shift_expression(kind, fields, numerals),
            FilterName::Volume => match fields.get("factor") {
                None => None,
                Some(factor) => Some(cat2("volume=volume=", factor)),
            },
            FilterName::Scale => {
                if fields.get("width").is_none() && fields.get("height").is_none() {
                    return None;
                }
                let w = get_or(fields, "width", "-1");
                let h = get_or(fields, "height", "-1");
                Some(cat4("scale=w=", w, ":h=", h))
            },
            FilterName::Crop => crop_expression(fields),
            FilterName::Fade => fade_expression(kind, fields),
            FilterName::Rotate => match fields.get("direction") {
                None => None,
                Some(d) => {
                    if same_text(d, "90cw") {
                        Some("transpose=dir=1".to_owned())
                    } else if same_text(d, "90ccw") {
                        Some("transpose=dir=2".to_owned())
                    } else if same_text(d, "180") {
                        Some("transpose=dir=1,transpose=dir=1".to_owned())
                    } else {
                        None
                    }
                },
            },
            FilterName::Trim => trim_expression(kind, fields),
        }
    }
}

fn get_or<'a>(fields: &'a FieldMap, key: &str, default: &'a str) -> (r: &'a str)
    ensures
        r@ == field_or(fields@, key@, default@),
{
    match fields.get(key) {
        Some(v) => v,
        None => default,
    }
}

fn push_part(parts: &mut Vec<String>, fields: &FieldMap, key: &str, prefix: &str)
    ensures
        views(final(parts)@) == views(old(parts)@) + part(fields@, key@, prefix@),
{
    broadcast use group_views;

    if let Some(v) = fields.get(key) {
        let text = cat2(prefix, v);
        parts.push(text);
        assert(views(parts@) == views(old(parts)@) + part(fields@, key@, prefix@));
    } else {
        assert(views(parts@) == views(old(parts)@) + part(fields@, key@, prefix@));
    }
}

fn shift_expression(kind: StreamKind, fields: &FieldMap, numerals: &Vec<Numeral>) -> (r: Option<
    String,
>)
    ensures
        opt_text(r) == FilterName::Shift.expression_spec(kind, fields@, views(numerals@)),
{
    match fields.get("seconds") {
        None => None,
        Some(seconds) => {
            if kind == StreamKind::Audio {
                match find_numeral(numerals, seconds) {
                    Some(n) => {
                        let ms = signed_number(n.millis);
                        Some(cat3("adelay=delays=", ms.as_str(), ":all=1"))
                    },
                    None => None,
                }
            } else {
                Some(cat3("setpts=PTS+(", seconds, ")/TB"))
            }
        },
    }
}

fn crop_expression(fields: &FieldMap) -> (r: Option<String>)
    ensures
        opt_text(r) == FilterName::Crop.expression_spec(
            StreamKind::Video,
            fields@,
            Seq::empty(),
        ),
{
    if fields.get("width").is_none() && fields.get("height").is_none() {
        return None;
    }
    let mut parts: Vec<String> = Vec::new();
    push_part(&mut parts, fields, "width", "w=");
    push_part(&mut parts, fields, "height", "h=");
    push_part(&mut parts, fields, "x", "x=");
    push_part(&mut parts, fields, "y", "y=");
    assert(views(parts@) == part(fields@, "width"@, "w="@) + part(fields@, "height"@, "h="@)
        + part(fields@, "x"@, "x="@) + part(fields@, "y"@, "y="@));
    let joined = join(&parts, ":");
    Some(cat2("crop=", joined.as_str()))
}

fn fade_expression(kind: StreamKind, fields: &FieldMap) -> (r: Option<String>)
    ensures
        opt_text(r) == FilterName::Fade.expression_spec(kind, fields@, Seq::empty()),
{
    match fields.get("type") {
        None => None,
        Some(fade_type) => {
            if !same_text(fade_type, "in") && !same_text(fade_type, "out") {
                return None;
            }
            let start = get_or(fields, "start", "0");
            let duration = get_or(fields, "duration", "1");
            let mut s = if kind == StreamKind::Audio {
                "afade".to_owned()
            } else {
                "fade".to_owned()
            };
            s.append("=t=");
            s.append(fade_type);
            s.append(":st=");
            s.append(start);
            s.append(":d=");
            s.append(duration);
            Some(s)
        },
    }
}

fn trim_expression(kind: StreamKind, fields: &FieldMap) -> (r: Option<String>)
    ensures
        opt_text(r) == FilterName::Trim.expression_spec(kind, fields@, Seq::empty()),
{
    if fields.get("start").is_none() && fields.get("end").is_none() {
        return None;
    }
    let mut parts: Vec<String> = Vec::new();
    push_part(&mut parts, fields, "start", "start=");
    push_part(&mut parts, fields, "end", "end=");
    assert(views(parts@) == part(fields@, "start"@, "start="@) + part(fields@, "end"@, "end="@));
    let joined = join(&parts, ":");
    if kind == StreamKind::Audio {
        Some(cat3("atrim=", joined.as_str(), ",asetpts=PTS-STARTPTS"))
    } else {
        Some(cat3("trim=", joined.as_str(), ",setpts=PTS-STARTPTS"))
    }
}

/// A filter that is not configured, or whose expression does not come about,
/// has none of its parameters set usably: with no field set at all, every
/// filter does nothing, whatever the stream.
pub proof fn unconfigured_filter_does_nothing(
    name: FilterName,
    kind: StreamKind,
    ns: Seq<NumeralView>,
)
    ensures
        name.expression_spec(kind, Seq::empty(), ns) is None,
{
}

// ---------------------------------------------------------------------
// Modifiers
// ---------------------------------------------------------------------

/// What a modifier node does to the stream that flows through it.
pub enum ModifierKind {
    Convert(Codec),
    /// `-metadata:s:<i> key=value` pairs.
    Metadata { fields: FieldMap },
    /// The disposition flags to set; none of them clears all.
    Disposition { flags: FlagSet },
    /// A `-filter_complex` effect and its parameters.
    Filter { name: FilterName, fields: FieldMap },
    /// A chapter list of its own. It does not decorate what flows through it;
    /// a connected chapter source is only imported from.
    ChapterEdit { chapters: Vec<Chapter> },
    /// Joins streams of the same kind end to end, in the order of its wires.
    Concat,
}

#[verifier::ext_equal]
pub enum KindView {
    Convert(CodecView),
    Metadata { fields: Seq<Entry> },
    Disposition { flags: Seq<Seq<char>> },
    Filter { name: FilterName, fields: Seq<Entry> },
    ChapterEdit { chapters: Seq<ChapterView> },
    Concat,
}

impl View for ModifierKind {
    type V = KindView;

    open spec fn view(&self) -> KindView {
        match self {
            ModifierKind::Convert(codec) => KindView::Convert(codec@),
            ModifierKind::Metadata { fields } => KindView::Metadata { fields: fields@ },
            ModifierKind::Disposition { flags } => KindView::Disposition { flags: flags@ },
            ModifierKind::Filter { name, fields } => KindView::Filter {
                name: *name,
                fields: fields@,
            },
            ModifierKind::ChapterEdit { chapters } => KindView::ChapterEdit {
                chapters: views(chapters@),
            },
            ModifierKind::Concat => KindView::Concat,
        }
    }
}

impl Clone for ModifierKind {
    fn clone(&self) -> (r: ModifierKind)
        ensures
            r@ == self@,
    {
        match self {
            ModifierKind::Convert(codec) => ModifierKind::Convert(codec.clone()),
            ModifierKind::Metadata { fields } => ModifierKind::Metadata { fields: fields.clone() },
            ModifierKind::Disposition { flags } => ModifierKind::Disposition {
                flags: flags.clone(),
            },
            ModifierKind::Filter { name, fields } => ModifierKind::Filter {
                name: *name,
                fields: fields.clone(),
            },
            ModifierKind::ChapterEdit { chapters } => ModifierKind::ChapterEdit {
                chapters: copy_chapters(chapters),
            },
            ModifierKind::Concat => ModifierKind::Concat,
        }
    }
}

impl KindView {
    pub open spec fn short_label(self) -> Seq<char> {
        match self {
            KindView::Convert(codec) => "convert: "@ + codec.label(),
            KindView::Metadata { .. } => "metadata"@,
            KindView::Disposition { .. } => "disposition"@,
            KindView::Filter { name, .. } => name.label_spec(),
            KindView::ChapterEdit { .. } => "chapters"@,
            KindView::Concat => "concat"@,
        }
    }

    /// Whether a stream of `kind` can be wired into such a modifier.
    pub open spec fn accepts(self, kind: StreamKind) -> bool {
        match self {
            KindView::Convert(_) | KindView::Metadata { .. } | KindView::Disposition { .. } => true,
            KindView::Filter { name, .. } => name.applies_spec(kind),
            KindView::ChapterEdit { .. } => kind == StreamKind::Chapter,
            KindView::Concat => kind == StreamKind::Video || kind == StreamKind::Audio,
        }
    }
}

impl ModifierKind {
    pub fn short_label(&self) -> (r: String)
        ensures
            r@ == self@.short_label(),
    {
        match self {
            ModifierKind::Convert(codec) => cat2("convert: ", codec.label()),
            ModifierKind::Metadata { .. } => "metadata".to_owned(),
            ModifierKind::Disposition { .. } => "disposition".to_owned(),
            ModifierKind::Filter { name, .. } => name.label().to_owned(),
            ModifierKind::ChapterEdit { .. } => "chapters".to_owned(),
            ModifierKind::Concat => "concat".to_owned(),
        }
    }

    /// Whether a stream of `kind` can be wired into such a modifier.
    pub fn accepts_stream_kind(&self, kind: StreamKind) -> (r: bool)
        ensures
            r == self@.accepts(kind),
    {
        match self {
            ModifierKind::Convert(_)
            | ModifierKind::Metadata { .. }
            | ModifierKind::Disposition { .. } => true,
            ModifierKind::Filter { name, .. } => name.applies_to(kind),
            ModifierKind::ChapterEdit { .. } => kind == StreamKind::Chapter,
            ModifierKind::Concat => kind == StreamKind::Video || kind == StreamKind::Audio,
        }
    }
}

/// A node between an input stream and an output. It has one incoming wire (a
/// concat node any number) and any number of outgoing ones.
pub struct ModifierNode {
    pub id: NodeId,
    pub kind: ModifierKind,
    pub pos: (i64, i64),
    pub width: u16,
}

#[verifier::ext_equal]
pub struct ModifierView {
    pub id: NodeId,
    pub kind: KindView,
    pub pos: (i64, i64),
    pub width: u16,
}

impl View for ModifierNode {
    type V = ModifierView;

    open spec fn view(&self) -> ModifierView {
        ModifierView { id: self.id, kind: self.kind@, pos: self.pos, width: self.width }
    }
}

impl Clone for ModifierNode {
    fn clone(&self) -> (r: ModifierNode)
        ensures
            r@ == self@,
    {
        ModifierNode { id: self.id, kind: self.kind.clone(), pos: self.pos, width: self.width }
    }
}

} // verus!

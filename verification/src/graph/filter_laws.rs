//! What each filter does to a stream, told by its parameters.
use vstd::prelude::*;

use super::args::Args;
use super::mapping_laws::{joining_keeps_the_order, strung};
use super::node::{numeral, FilterName, KindView, NumeralView};
use super::stream::StreamKind;
use crate::fields::{field_get, Entry};
use crate::text::signed_decimal;

verus! {

/// A parameter as a word, where it is set.
pub open spec fn given(word: Seq<char>, value: Option<Seq<char>>) -> Args {
    match value {
        Some(v) => seq![word + v],
        None => Seq::empty(),
    }
}

/// A parameter, or what stands for it where it is not set.
pub open spec fn otherwise(value: Option<Seq<char>>, default: Seq<char>) -> Seq<char> {
    match value {
        Some(v) => v,
        None => default,
    }
}

/// A delay moves a stream later by its seconds: audio by as many milliseconds
/// as they are worth, anything else by adding them to its timestamps.
pub proof fn delay_is_by_its_seconds(kind: StreamKind, m: Seq<Entry>, ns: Seq<NumeralView>)
    ensures
        ({
            let said = FilterName::Shift.expression_spec(kind, m, ns);
            match field_get(m, "seconds"@) {
                None => said is None,
                Some(seconds) => if kind == StreamKind::Audio {
                    match numeral(ns, seconds) {
                        None => said is None,
                        Some(number) => said == Some(
                            "adelay=delays="@ + signed_decimal(number.millis as int) + ":all=1"@,
                        ),
                    }
                } else {
                    said == Some("setpts=PTS+("@ + seconds + ")/TB"@)
                },
            }
        }),
{
}

/// Volume is multiplied by the factor.
pub proof fn volume_is_by_its_factor(kind: StreamKind, m: Seq<Entry>, ns: Seq<NumeralView>)
    ensures
        FilterName::Volume.expression_spec(kind, m, ns) == (match field_get(m, "factor"@) {
            Some(factor) => Some("volume=volume="@ + factor),
            None => None,
        }),
{
}

/// Scaling makes the picture as wide and as high as asked for; a side that is
/// not given follows the other one.
pub proof fn scaling_is_to_its_size(kind: StreamKind, m: Seq<Entry>, ns: Seq<NumeralView>)
    ensures
        ({
            let said = FilterName::Scale.expression_spec(kind, m, ns);
            match (field_get(m, "width"@), field_get(m, "height"@)) {
                (Some(w), Some(h)) => said == Some("scale=w="@ + w + ":h="@ + h),
                (Some(w), None) => said == Some("scale=w="@ + w + ":h="@ + "-1"@),
                (None, Some(h)) => said == Some("scale=w="@ + "-1"@ + ":h="@ + h),
                (None, None) => said is None,
            }
        }),
{
}

/// Cropping keeps a rectangle: `w` is its width, `h` its height, `x` and `y`
/// its left and upper edge, each as far as it is given. It takes a width or a
/// height to crop at all.
pub proof fn cropping_is_to_its_rectangle(kind: StreamKind, m: Seq<Entry>, ns: Seq<NumeralView>)
    ensures
        ({
            let w = field_get(m, "width"@);
            let h = field_get(m, "height"@);
            let words = given("w="@, w) + given("h="@, h) + given("x="@, field_get(m, "x"@))
                + given("y="@, field_get(m, "y"@));
            FilterName::Crop.expression_spec(kind, m, ns) == (if w is Some || h is Some {
                Some("crop="@ + strung(words, ":"@))
            } else {
                None
            })
        }),
{
    let words = given("w="@, field_get(m, "width"@)) + given("h="@, field_get(m, "height"@))
        + given("x="@, field_get(m, "x"@)) + given("y="@, field_get(m, "y"@));
    joining_keeps_the_order(words, ":"@);
}

/// A fade goes the way of its type, in or out, begins at its start and takes
/// its duration: from the beginning on and for a second where these are not
/// given. Sound has a filter of its own for it.
pub proof fn fade_is_by_its_type_and_times(kind: StreamKind, m: Seq<Entry>, ns: Seq<NumeralView>)
    ensures
        ({
            let said = FilterName::Fade.expression_spec(kind, m, ns);
            let name = if kind == StreamKind::Audio {
                "afade"@
            } else {
                "fade"@
            };
            let times = ":st="@ + otherwise(field_get(m, "start"@), "0"@) + ":d="@ + otherwise(
                field_get(m, "duration"@),
                "1"@,
            );
            match field_get(m, "type"@) {
                None => said is None,
                Some(t) => if t == "in"@ || t == "out"@ {
                    said == Some(name + "=t="@ + t + times)
                } else {
                    said is None
                },
            }
        }),
{
    if let Some(t) = field_get(m, "type"@) {
        let name = if kind == StreamKind::Audio {
            "afade"@
        } else {
            "fade"@
        };
        let start = otherwise(field_get(m, "start"@), "0"@);
        let duration = otherwise(field_get(m, "duration"@), "1"@);
        assert(name + "=t="@ + t + ":st="@ + start + ":d="@ + duration =~= name + "=t="@ + t + (
        ":st="@ + start + ":d="@ + duration));
    }
}

/// A rotation is one transpose clockwise, one the other way, or two clockwise.
pub proof fn rotation_is_by_its_direction(kind: StreamKind, m: Seq<Entry>, ns: Seq<NumeralView>)
    ensures
        ({
            let said = FilterName::Rotate.expression_spec(kind, m, ns);
            let d = field_get(m, "direction"@);
            &&& d == Some("90cw"@) ==> said == Some("transpose=dir=1"@)
            &&& d == Some("90ccw"@) ==> said == Some("transpose=dir=2"@)
            &&& d == Some("180"@) ==> said == Some("transpose=dir=1,transpose=dir=1"@)
            &&& d != Some("90cw"@) && d != Some("90ccw"@) && d != Some("180"@) ==> said is None
        }),
{
    reveal_strlit("90cw");
    reveal_strlit("90ccw");
    reveal_strlit("180");
    assert("90cw"@.len() == 4 && "90ccw"@.len() == 5 && "180"@.len() == 3);
}

/// A trim keeps what is between its start and its end, as far as each is
/// given, and lets the timestamps begin at zero again. Sound has filters of
/// its own for it.
pub proof fn trim_is_from_its_start_to_its_end(
    kind: StreamKind,
    m: Seq<Entry>,
    ns: Seq<NumeralView>,
)
    ensures
        ({
            let said = FilterName::Trim.expression_spec(kind, m, ns);
            let (cut, reset) = if kind == StreamKind::Audio {
                ("atrim="@, ",asetpts=PTS-STARTPTS"@)
            } else {
                ("trim="@, ",setpts=PTS-STARTPTS"@)
            };
            match (field_get(m, "start"@), field_get(m, "end"@)) {
                (Some(s), Some(e)) => said == Some(
                    cut + ("start="@ + s + ":"@ + ("end="@ + e)) + reset,
                ),
                (Some(s), None) => said == Some(cut + ("start="@ + s) + reset),
                (None, Some(e)) => said == Some(cut + ("end="@ + e) + reset),
                (None, None) => said is None,
            }
        }),
{
    let start = field_get(m, "start"@);
    let end = field_get(m, "end"@);
    let words = given("start="@, start) + given("end="@, end);
    joining_keeps_the_order(words, ":"@);
    if start is Some && end is Some {
        assert(words.skip(1) =~= seq!["end="@ + end->0]);
        assert(strung(words.skip(1), ":"@) == "end="@ + end->0);
        assert(words[0] == "start="@ + start->0);
    } else if start is Some {
        assert(words =~= seq!["start="@ + start->0]);
    } else if end is Some {
        assert(words =~= seq!["end="@ + end->0]);
    }
}

/// A filter reads the parameters that it offers, and no others: two settings
/// that agree on those do the same.
pub proof fn only_offered_parameters_matter(
    name: FilterName,
    kind: StreamKind,
    a: Seq<Entry>,
    b: Seq<Entry>,
    ns: Seq<NumeralView>,
)
    requires
        forall|i: int|
            0 <= i < name.fields_spec().len() ==> field_get(a, #[trigger] name.fields_spec()[i])
                == field_get(b, name.fields_spec()[i]),
    ensures
        name.expression_spec(kind, a, ns) == name.expression_spec(kind, b, ns),
{
    let keys = name.fields_spec();
    assert(keys.len() > 0 ==> field_get(a, keys[0]) == field_get(b, keys[0]));
    assert(keys.len() > 1 ==> field_get(a, keys[1]) == field_get(b, keys[1]));
    assert(keys.len() > 2 ==> field_get(a, keys[2]) == field_get(b, keys[2]));
    assert(keys.len() > 3 ==> field_get(a, keys[3]) == field_get(b, keys[3]));
}

/// Every value that a parameter is offered is one that the filter takes.
pub proof fn offered_values_are_taken(
    name: FilterName,
    kind: StreamKind,
    m: Seq<Entry>,
    ns: Seq<NumeralView>,
    key: Seq<char>,
    i: int,
)
    requires
        name.value_options_spec(key) is Some,
        0 <= i < name.value_options_spec(key)->0.len(),
        field_get(m, key) == Some(name.value_options_spec(key)->0[i]),
    ensures
        name.expression_spec(kind, m, ns) is Some,
        name.fields_spec().contains(key),
{
    let keys = name.fields_spec();
    assert(keys[0] == key);
}

/// Pictures are scaled, cropped and rotated, sound is made louder, and both
/// are delayed, faded and trimmed; nothing else is filtered.
pub proof fn filters_are_for_pictures_or_sound(name: FilterName, kind: StreamKind)
    ensures
        name.applies_spec(StreamKind::Video) <==> name != FilterName::Volume,
        name.applies_spec(StreamKind::Audio) <==> !(name == FilterName::Scale || name
            == FilterName::Crop || name == FilterName::Rotate),
        name.applies_spec(kind) ==> kind == StreamKind::Video || kind == StreamKind::Audio,
{
}

/// Chapters go into chapter nodes, which take nothing else; pictures and sound
/// can be joined; a filter takes what it is for; and anything can be converted
/// or described.
pub proof fn modifiers_take_what_they_are_for(modifier: KindView, kind: StreamKind)
    ensures
        modifier is ChapterEdit ==> (modifier.accepts(kind) <==> kind == StreamKind::Chapter),
        modifier is Concat ==> (modifier.accepts(kind) <==> kind == StreamKind::Video || kind
            == StreamKind::Audio),
        modifier matches KindView::Filter { name, .. } ==> (modifier.accepts(kind)
            <==> name.applies_spec(kind)),
        modifier is Convert || modifier is Metadata || modifier is Disposition
            ==> modifier.accepts(kind),
{
}

} // verus!

//! Choosing from a list.
use vstd::prelude::*;

use super::settings::{current_value, set_kind, set_stored, store_of_mut, stored, value_in, Store};
use super::text_input::{text_input_mode, text_mode};
use super::{turned, wrap_around, App, AppView, EntryView, ExtraArgsTarget, Focus, Mode, ModeView, PickerEntry, PickerKind, PickerKindView, Request, RequestView, TargetView, TextTarget};
use crate::fields::{field_get, field_set, field_unset, flag_toggle, Entry, FieldMap, FlagSet};
use crate::graph::chapter::{Chapter, ChapterView};
use crate::graph::node::{disposition_flags, disposition_names, input_extra_arg_keys, input_keys, output_extra_arg_keys, output_keys, ExtraArgKey, ExtraArgKeyView, FilterName, InputView, KindView, ModifierKind, OutputView};
use crate::graph::stream::{Codec, CodecView};
use crate::graph::wire::NodeId;
use crate::graph::{Graph, GraphView};
use crate::paths::{stem_spec, without_extension};
use crate::text::{cat2, cat3, cat5, contains, contains_spec, copy_texts, group_views, less, list_contains, lowercase, opt_copy, opt_str, opt_text, same_opt, same_text, text_less, views};

verus! {

// ---------------------------------------------------------------------
// Option lists
// ---------------------------------------------------------------------

/// Whether an option is shown under a query: its text holds the query,
/// whatever the case, and the empty query shows everything.
pub open spec fn shown(e: EntryView, query: Seq<char>) -> bool {
    query.len() == 0 || contains_spec(lowercase(e.display), lowercase(query))
}

/// The positions of those of the first `n` options that are shown.
pub open spec fn filtered_upto(options: Seq<EntryView>, query: Seq<char>, n: int) -> Seq<usize>
    decreases n,
{
    if n <= 0 {
        Seq::empty()
    } else {
        let p = filtered_upto(options, query, n - 1);
        if shown(options[n - 1], query) {
            p.push((n - 1) as usize)
        } else {
            p
        }
    }
}

/// The positions of the options that are shown.
pub open spec fn filtered(options: Seq<EntryView>, query: Seq<char>) -> Seq<usize> {
    filtered_upto(options, query, options.len() as int)
}

/// The positions of those of the first `n` texts that hold `needle`.
pub open spec fn holding_upto(texts: Seq<Seq<char>>, needle: Seq<char>, n: int) -> Seq<usize>
    decreases n,
{
    if n <= 0 {
        Seq::empty()
    } else {
        let p = holding_upto(texts, needle, n - 1);
        if contains_spec(texts[n - 1], needle) {
            p.push((n - 1) as usize)
        } else {
            p
        }
    }
}

/// The positions of the texts that hold `needle`.
pub fn positions_holding(texts: &Vec<String>, needle: &str) -> (r: Vec<usize>)
    ensures
        r@ == holding_upto(views(texts@), needle@, texts@.len() as int),
{
    let mut out: Vec<usize> = Vec::new();
    let mut i: usize = 0;
    while i < texts.len()
        invariant
            i <= texts@.len(),
            out@ == holding_upto(views(texts@), needle@, i as int),
        decreases texts@.len() - i,
    {
        assert(views(texts@)[i as int] == texts@[i as int]@);
        if contains(texts[i].as_str(), needle) {
            out.push(i);
        }
        i += 1;
    }
    out
}

/// The displays of some options, in lowercase.
pub open spec fn lowered(options: Seq<EntryView>) -> Seq<Seq<char>> {
    Seq::new(options.len(), |i: int| lowercase(options[i].display))
}

proof fn lemma_holding_is_filtered(options: Seq<EntryView>, query: Seq<char>, n: int)
    requires
        0 <= n <= options.len(),
    ensures
        query.len() > 0 ==> holding_upto(lowered(options), lowercase(query), n) == filtered_upto(
            options,
            query,
            n,
        ),
        query.len() == 0 ==> filtered_upto(options, query, n) == Seq::new(
            n as nat,
            |i: int| i as usize,
        ),
        forall|i: int|
            0 <= i < filtered_upto(options, query, n).len() ==> #[trigger] filtered_upto(
                options,
                query,
                n,
            )[i] < n || n > usize::MAX,
    decreases n,
{
    if n > 0 {
        lemma_holding_is_filtered(options, query, n - 1);
        if query.len() == 0 {
            assert(filtered_upto(options, query, n) == Seq::new(n as nat, |i: int| i as usize));
        }
        let p = filtered_upto(options, query, n - 1);
        let q = filtered_upto(options, query, n);
        assert forall|i: int| 0 <= i < q.len() implies #[trigger] q[i] < n || n > usize::MAX by {
            if i < p.len() {
                assert(q[i] == p[i]);
            }
        }
    } else {
        assert(Seq::new(0, |i: int| i as usize) == Seq::<usize>::empty());
    }
}

/// The positions of the options whose text holds the query, whatever the
/// case. The empty query matches everything.
pub fn filtered_indices(options: &Vec<PickerEntry>, query: &str) -> (r: Vec<usize>)
    ensures
        r@ == filtered(views(options@), query@),
        forall|i: int| 0 <= i < r@.len() ==> (#[trigger] r@[i]) < options@.len(),
{
    let total: usize = options.len();
    proof {
        lemma_holding_is_filtered(views(options@), query@, options@.len() as int);
    }
    if query.is_empty() {
        let mut all: Vec<usize> = Vec::new();
        let mut k: usize = 0;
        while k < total
            invariant
                k <= total,
                all@ == Seq::new(k as nat, |i: int| i as usize),
            decreases total - k,
        {
            all.push(k);
            k += 1;
            assert(all@ == Seq::new(k as nat, |i: int| i as usize));
        }
        return all;
    }
    let mut texts: Vec<String> = Vec::new();
    let mut i: usize = 0;
    while i < options.len()
        invariant
            i <= options@.len(),
            texts@.len() == i,
            forall|k: int|
                0 <= k < i ==> (#[trigger] texts@[k])@ == lowercase(views(options@)[k].display),
        decreases options@.len() - i,
    {
        texts.push(options[i].display.as_str().to_lowercase());
        i += 1;
    }
    assert(views(texts@) == lowered(views(options@)));
    let lower = query.to_lowercase();
    positions_holding(&texts, lower.as_str())
}

/// Those of the first `n` names that `known` holds.
pub open spec fn known_upto(names: Seq<Seq<char>>, known: Seq<Seq<char>>, n: int) -> Seq<Seq<char>>
    decreases n,
{
    if n <= 0 {
        Seq::empty()
    } else {
        let p = known_upto(names, known, n - 1);
        if known.contains(names[n - 1]) {
            p.push(names[n - 1])
        } else {
            p
        }
    }
}

/// The first position from `i` on whose text comes behind `t`.
pub open spec fn behind(s: Seq<Seq<char>>, t: Seq<char>, i: int) -> int
    decreases s.len() - i,
{
    if i >= s.len() {
        s.len() as int
    } else if text_less(t, s[i]) {
        i
    } else {
        behind(s, t, i + 1)
    }
}

/// Those of the first `n` names of `found` that `names` does not hold, in
/// text order.
pub open spec fn rest_upto(names: Seq<Seq<char>>, found: Seq<Seq<char>>, n: int) -> Seq<Seq<char>>
    decreases n,
{
    if n <= 0 {
        Seq::empty()
    } else {
        let p = rest_upto(names, found, n - 1);
        if names.contains(found[n - 1]) {
            p
        } else {
            p.insert(behind(p, found[n - 1], 0), found[n - 1])
        }
    }
}

/// The names that are offered: those of the curated ones that were really
/// found, and behind them the rest of what was found, in text order. Where
/// nothing was found out, the curated ones as they are.
pub open spec fn offered(names: Seq<Seq<char>>, found: Seq<Seq<char>>) -> Seq<Seq<char>> {
    if found.len() == 0 {
        names
    } else {
        let kept = known_upto(names, found, names.len() as int);
        kept + rest_upto(kept, found, found.len() as int)
    }
}

/// The names that are offered: those of the curated ones that were really
/// found, and behind them the rest of what was found, in text order.
pub fn prioritize_and_extend(names: &Vec<String>, discovered: &Vec<String>) -> (r: Vec<String>)
    ensures
        views(r@) == offered(views(names@), views(discovered@)),
{
    if discovered.len() == 0 {
        return copy_texts(names);
    }
    let ghost found = views(discovered@);
    let mut kept: Vec<String> = Vec::new();
    let mut i: usize = 0;
    assert(views(kept@) == Seq::<Seq<char>>::empty());
    while i < names.len()
        invariant
            i <= names@.len(),
            found == views(discovered@),
            views(kept@) == known_upto(views(names@), found, i as int),
        decreases names@.len() - i,
    {
        broadcast use group_views;

        assert(views(names@)[i as int] == names@[i as int]@);
        if list_contains(discovered, names[i].as_str()) {
            kept.push(names[i].clone());
        }
        i += 1;
    }
    let mut rest: Vec<String> = Vec::new();
    let mut k: usize = 0;
    assert(views(rest@) == Seq::<Seq<char>>::empty());
    while k < discovered.len()
        invariant
            k <= discovered@.len(),
            found == views(discovered@),
            views(rest@) == rest_upto(views(kept@), found, k as int),
        decreases discovered@.len() - k,
    {
        broadcast use group_views;

        let t = discovered[k].as_str();
        assert(t@ == found[k as int]);
        if !list_contains(&kept, t) {
            let mut j: usize = 0;
            while j < rest.len() && !less(t, rest[j].as_str())
                invariant
                    j <= rest@.len(),
                    behind(views(rest@), t@, 0) == behind(views(rest@), t@, j as int),
                decreases rest@.len() - j,
            {
                j += 1;
            }
            rest.insert(j, t.to_owned());
        }
        k += 1;
    }
    crate::text::append_texts(&mut kept, &rest);
    kept
}

/// An option that stands for its own name.
pub open spec fn named(n: Seq<char>) -> EntryView {
    EntryView { display: n, value: Some(n) }
}

/// An option that resets, and one for each name.
pub open spec fn options_spec(reset: Seq<char>, names: Seq<Seq<char>>) -> Seq<EntryView> {
    seq![EntryView { display: reset, value: None }] + Seq::new(
        names.len(),
        |i: int| named(names[i]),
    )
}

/// An option that resets, and one for each name.
pub fn picker_options(reset_label: &str, names: &Vec<String>) -> (r: Vec<PickerEntry>)
    ensures
        views(r@) == options_spec(reset_label@, views(names@)),
{
    let mut options = vec![PickerEntry { display: reset_label.to_owned(), value: None }];
    let mut i: usize = 0;
    while i < names.len()
        invariant
            i <= names@.len(),
            options@.len() == i + 1,
            options@[0]@ == (EntryView { display: reset_label@, value: None }),
            forall|k: int| 1 <= k <= i ==> (#[trigger] options@[k])@ == named(views(names@)[k - 1]),
        decreases names@.len() - i,
    {
        options.push(PickerEntry { display: names[i].clone(), value: Some(names[i].clone()) });
        i += 1;
    }
    assert(views(options@) =~= options_spec(reset_label@, views(names@)));
    options
}

/// The first position from `i` on of an option that stands for `name`.
pub open spec fn option_from(options: Seq<EntryView>, name: Seq<char>, i: int) -> Option<int>
    decreases options.len() - i,
{
    if i >= options.len() {
        None
    } else if options[i].value == Some(name) {
        Some(i)
    } else {
        option_from(options, name, i + 1)
    }
}

/// The position of the option that stands for the current value; the first
/// one where there is none.
pub open spec fn selected_spec(options: Seq<EntryView>, current: Option<Seq<char>>) -> int {
    match current {
        None => 0,
        Some(name) => match option_from(options, name, 0) {
            Some(i) => i,
            None => 0,
        },
    }
}

/// The position of the option that stands for the current value; the first
/// one where there is none.
pub fn selected_index(options: &Vec<PickerEntry>, current: Option<&str>) -> (r: usize)
    ensures
        r == selected_spec(views(options@), opt_str(current)),
{
    match current {
        None => 0,
        Some(name) => {
            let mut i: usize = 0;
            while i < options.len()
                invariant
                    i <= options@.len(),
                    option_from(views(options@), name@, 0) == option_from(
                        views(options@),
                        name@,
                        i as int,
                    ),
                    current == Some(name),
                decreases options@.len() - i,
            {
                assert(views(options@)[i as int] == options@[i as int]@);
                if same_opt(&options[i].value, name) {
                    return i;
                }
                i += 1;
            }
            0
        },
    }
}

/// How a field and its value are shown.
pub open spec fn field_display(label: Seq<char>, value: Option<Seq<char>>) -> Seq<char> {
    match value {
        Some(v) => label + ": "@ + v,
        None => label + ": (not set)"@,
    }
}

fn show_field(label: &str, value: Option<&str>) -> (r: String)
    ensures
        r@ == field_display(label@, opt_str(value)),
{
    match value {
        Some(v) => cat3(label, ": ", v),
        None => cat2(label, ": (not set)"),
    }
}

/// The option for a field.
pub open spec fn field_option(m: Seq<Entry>, key: Seq<char>) -> EntryView {
    EntryView { display: field_display(key, field_get(m, key)), value: Some(key) }
}

/// Options for those of the first `n` fields that are not among `keys`.
pub open spec fn other_fields_upto(m: Seq<Entry>, keys: Seq<Seq<char>>, n: int) -> Seq<EntryView>
    decreases n,
{
    if n <= 0 {
        Seq::empty()
    } else {
        let p = other_fields_upto(m, keys, n - 1);
        if keys.contains(m[n - 1].0) {
            p
        } else {
            p.push(
                EntryView {
                    display: field_display(m[n - 1].0, Some(m[n - 1].1)),
                    value: Some(m[n - 1].0),
                },
            )
        }
    }
}

/// The option that asks for a name first.
pub open spec fn custom_option() -> EntryView {
    EntryView { display: "custom key…"@, value: None }
}

/// One option for each curated field with its value. Where fields of other
/// names are allowed, also one for each of those that is set, and one that
/// asks for a name.
pub open spec fn field_options(m: Seq<Entry>, keys: Seq<Seq<char>>, allow_custom: bool) -> Seq<
    EntryView,
> {
    let curated = Seq::new(keys.len(), |i: int| field_option(m, keys[i]));
    if allow_custom {
        curated + other_fields_upto(m, keys, m.len() as int) + seq![custom_option()]
    } else {
        curated
    }
}

/// Whether a list of names holds `t`.
fn names_contain(names: &Vec<&'static str>, t: &str) -> (r: bool)
    ensures
        r == views(names@).contains(t@),
{
    let mut i: usize = 0;
    while i < names.len()
        invariant
            i <= names@.len(),
            forall|j: int| 0 <= j < i ==> views(names@)[j] != t@,
        decreases names@.len() - i,
    {
        if same_text(names[i], t) {
            assert(views(names@)[i as int] == t@);
            return true;
        }
        i += 1;
    }
    false
}

/// One option for each curated field with its value. Where fields of other
/// names are allowed, also one for each of those that is set, and one that
/// asks for a name.
pub fn field_picker_options(fields: &FieldMap, keys: &Vec<&'static str>, allow_custom: bool) -> (r:
    Vec<PickerEntry>)
    ensures
        views(r@) == field_options(fields@, views(keys@), allow_custom),
{
    let ghost curated = Seq::new(
        views(keys@).len(),
        |i: int| field_option(fields@, views(keys@)[i]),
    );
    let mut options: Vec<PickerEntry> = Vec::new();
    let mut i: usize = 0;
    while i < keys.len()
        invariant
            i <= keys@.len(),
            options@.len() == i,
            forall|k: int|
                0 <= k < i ==> (#[trigger] options@[k])@ == field_option(fields@, views(keys@)[k]),
        decreases keys@.len() - i,
    {
        let display = show_field(keys[i], fields.get(keys[i]));
        options.push(PickerEntry { display, value: Some(keys[i].to_owned()) });
        i += 1;
    }
    assert(views(options@) == curated);
    if allow_custom {
        let mut k: usize = 0;
        assert(curated + other_fields_upto(fields@, views(keys@), 0) == curated);
        while k < fields.len()
            invariant
                k <= fields@.len(),
                views(options@) == curated + other_fields_upto(fields@, views(keys@), k as int),
            decreases fields@.len() - k,
        {
            broadcast use group_views;

            if !names_contain(keys, fields.key(k)) {
                let display = show_field(fields.key(k), Some(fields.value(k)));
                let ghost before = views(options@);
                options.push(PickerEntry { display, value: Some(fields.key(k).to_owned()) });
                assert(views(options@) == before.push(
                    EntryView {
                        display: field_display(fields@[k as int].0, Some(fields@[k as int].1)),
                        value: Some(fields@[k as int].0),
                    },
                ));
            }
            k += 1;
            assert(views(options@) == curated + other_fields_upto(
                fields@,
                views(keys@),
                k as int,
            ));
        }
        let ghost before = views(options@);
        options.push(PickerEntry { display: "custom key…".to_owned(), value: None });
        assert(views(options@) == before + seq![custom_option()]);
    }
    options
}

/// A box that is checked or not, and a label.
pub open spec fn checkbox(checked: bool, label: Seq<char>) -> Seq<char> {
    (if checked {
        "[x] "@
    } else {
        "[ ] "@
    }) + label
}

fn show_checkbox(checked: bool, label: &str) -> (r: String)
    ensures
        r@ == checkbox(checked, label@),
{
    if checked {
        cat2("[x] ", label)
    } else {
        cat2("[ ] ", label)
    }
}

/// One option for each disposition flag that is offered, checked where it is
/// set.
pub open spec fn disposition_options(flags: Seq<Seq<char>>) -> Seq<EntryView> {
    let names = disposition_names();
    Seq::new(
        names.len(),
        |i: int|
            EntryView {
                display: checkbox(flags.contains(names[i]), names[i]),
                value: Some(names[i]),
            },
    )
}

/// One option for each disposition flag that is offered, checked where it is
/// set.
pub fn disposition_picker_options(flags: &FlagSet) -> (r: Vec<PickerEntry>)
    ensures
        views(r@) == disposition_options(flags@),
{
    let names = disposition_flags();
    let ghost all = views(names@);
    let mut options: Vec<PickerEntry> = Vec::new();
    let mut i: usize = 0;
    while i < names.len()
        invariant
            i <= names@.len(),
            all == views(names@),
            all == disposition_names(),
            options@.len() == i,
            forall|k: int|
                0 <= k < i ==> (#[trigger] options@[k])@ == disposition_options(flags@)[k],
        decreases names@.len() - i,
    {
        assert(names@[i as int]@ == all[i as int]);
        let display = show_checkbox(flags.contains(names[i]), names[i]);
        options.push(PickerEntry { display, value: Some(names[i].to_owned()) });
        i += 1;
    }
    assert(views(options@) =~= disposition_options(flags@));
    options
}

// ---------------------------------------------------------------------
// Further options of inputs and outputs
// ---------------------------------------------------------------------

/// The options that are offered for a node.
pub open spec fn curated_keys(target: ExtraArgsTarget, has_teletext_decoder: bool) -> Seq<
    ExtraArgKeyView,
> {
    match target {
        ExtraArgsTarget::Input(_) => input_keys(has_teletext_decoder),
        ExtraArgsTarget::Output(_) => output_keys(),
    }
}

/// The options that are offered for a node.
pub fn curated_extra_arg_keys(target: ExtraArgsTarget, has_teletext_decoder: bool) -> (r: Vec<
    ExtraArgKey,
>)
    ensures
        views(r@) == curated_keys(target, has_teletext_decoder),
{
    match target {
        ExtraArgsTarget::Input(_) => input_extra_arg_keys(has_teletext_decoder),
        ExtraArgsTarget::Output(_) => output_extra_arg_keys(),
    }
}

/// The first position from `i` on of an offered option.
pub open spec fn curated_from(keys: Seq<ExtraArgKeyView>, key: Seq<char>, i: int) -> Option<int>
    decreases keys.len() - i,
{
    if i >= keys.len() {
        None
    } else if keys[i].key == key {
        Some(i)
    } else {
        curated_from(keys, key, i + 1)
    }
}

/// The label of an option: an offered one's own, and any other option's name.
pub open spec fn label_of(keys: Seq<ExtraArgKeyView>, key: Seq<char>) -> Seq<char> {
    match curated_from(keys, key, 0) {
        Some(i) => keys[i].label,
        None => key,
    }
}

fn find_curated(keys: &Vec<ExtraArgKey>, key: &str) -> (r: Option<usize>)
    ensures
        match r {
            Some(i) => i < keys@.len() && curated_from(views(keys@), key@, 0) == Some(i as int),
            None => curated_from(views(keys@), key@, 0) is None,
        },
{
    let mut i: usize = 0;
    while i < keys.len()
        invariant
            i <= keys@.len(),
            curated_from(views(keys@), key@, 0) == curated_from(views(keys@), key@, i as int),
        decreases keys@.len() - i,
    {
        assert(views(keys@)[i as int] == keys@[i as int]@);
        if same_text(keys[i].key, key) {
            return Some(i);
        }
        i += 1;
    }
    None
}

/// The label of an option: an offered one's own, and any other option's name.
pub fn extra_arg_label<'a>(
    target: ExtraArgsTarget,
    key: &'a str,
    has_teletext_decoder: bool,
) -> (r: &'a str)
    ensures
        r@ == label_of(curated_keys(target, has_teletext_decoder), key@),
{
    let keys = curated_extra_arg_keys(target, has_teletext_decoder);
    match find_curated(&keys, key) {
        Some(i) => {
            assert(views(keys@)[i as int] == keys@[i as int]@);
            keys[i].label
        },
        None => key,
    }
}

/// The further options of a node.
pub open spec fn extra_args(g: GraphView, target: ExtraArgsTarget) -> Option<Seq<Entry>> {
    match target {
        ExtraArgsTarget::Input(id) => match g.input(id) {
            Some(n) => Some(n.extra_args),
            None => None,
        },
        ExtraArgsTarget::Output(id) => match g.output(id) {
            Some(n) => Some(n.extra_args),
            None => None,
        },
    }
}

/// The graph with other further options of a node.
pub open spec fn set_extra_args(g: GraphView, target: ExtraArgsTarget, m: Seq<Entry>) -> GraphView {
    match target {
        ExtraArgsTarget::Input(id) => match g.input_at(id) {
            Some(i) => g.set_input(i, InputView { extra_args: m, ..g.inputs[i] }),
            None => g,
        },
        ExtraArgsTarget::Output(id) => match g.output_at(id) {
            Some(i) => g.set_output(i, OutputView { extra_args: m, ..g.outputs[i] }),
            None => g,
        },
    }
}

/// The further options of a node.
pub fn extra_args_of(graph: &Graph, target: ExtraArgsTarget) -> (r: Option<&FieldMap>)
    ensures
        match r {
            Some(m) => extra_args(graph@, target) == Some(m@),
            None => extra_args(graph@, target) is None,
        },
{
    match target {
        ExtraArgsTarget::Input(id) => match graph.input(id) {
            Some(n) => Some(&n.extra_args),
            None => None,
        },
        ExtraArgsTarget::Output(id) => match graph.output(id) {
            Some(n) => Some(&n.extra_args),
            None => None,
        },
    }
}

/// The further options of a node, to change.
pub fn extra_args_of_mut(graph: &mut Graph, target: ExtraArgsTarget) -> (r: Option<&mut FieldMap>)
    ensures
        match r {
            Some(m) => {
                &&& extra_args(old(graph)@, target) == Some(m@)
                &&& final(graph)@ == set_extra_args(old(graph)@, target, final(m)@)
            },
            None => extra_args(old(graph)@, target) is None && final(graph)@ == old(graph)@,
        },
{
    broadcast use group_views;

    match target {
        ExtraArgsTarget::Input(id) => match graph.input_mut(id) {
            Some(n) => Some(&mut n.extra_args),
            None => None,
        },
        ExtraArgsTarget::Output(id) => match graph.output_mut(id) {
            Some(n) => Some(&mut n.extra_args),
            None => None,
        },
    }
}

/// The option for an offered option: a box for a switch, and the value for
/// any other.
pub open spec fn curated_option(k: ExtraArgKeyView, m: Seq<Entry>) -> EntryView {
    EntryView {
        display: if k.switch {
            checkbox(field_get(m, k.key) is Some, k.label)
        } else {
            field_display(k.label, field_get(m, k.key))
        },
        value: Some(k.key),
    }
}

/// The names of the offered options.
pub open spec fn key_names(keys: Seq<ExtraArgKeyView>) -> Seq<Seq<char>> {
    Seq::new(keys.len(), |i: int| keys[i].key)
}

/// One option for each further option that is offered for a node, one for
/// each other one that is set, and one that asks for a name.
pub open spec fn extra_args_options(
    g: GraphView,
    target: ExtraArgsTarget,
    has_teletext_decoder: bool,
) -> Seq<EntryView> {
    let keys = curated_keys(target, has_teletext_decoder);
    let m = match extra_args(g, target) {
        Some(m) => m,
        None => Seq::empty(),
    };
    Seq::new(keys.len(), |i: int| curated_option(keys[i], m)) + other_fields_upto(
        m,
        key_names(keys),
        m.len() as int,
    ) + seq![custom_option()]
}

fn curated_contains(keys: &Vec<ExtraArgKey>, t: &str) -> (r: bool)
    ensures
        r == key_names(views(keys@)).contains(t@),
{
    let mut i: usize = 0;
    while i < keys.len()
        invariant
            i <= keys@.len(),
            forall|j: int| 0 <= j < i ==> key_names(views(keys@))[j] != t@,
        decreases keys@.len() - i,
    {
        if same_text(keys[i].key, t) {
            assert(key_names(views(keys@))[i as int] == t@);
            return true;
        }
        i += 1;
    }
    false
}

/// One option for each further option that is offered for a node, one for
/// each other one that is set, and one that asks for a name.
pub fn extra_args_picker_options(
    graph: &Graph,
    target: ExtraArgsTarget,
    has_teletext_decoder: bool,
) -> (r: Vec<PickerEntry>)
    ensures
        views(r@) == extra_args_options(graph@, target, has_teletext_decoder),
{
    let fields = match extra_args_of(graph, target) {
        Some(m) => m.clone(),
        None => FieldMap::new(),
    };
    let keys = curated_extra_arg_keys(target, has_teletext_decoder);
    let ghost ks = views(keys@);
    let ghost m = fields@;
    let ghost curated = Seq::new(ks.len(), |i: int| curated_option(ks[i], m));
    let mut options: Vec<PickerEntry> = Vec::new();
    let mut i: usize = 0;
    while i < keys.len()
        invariant
            i <= keys@.len(),
            ks == views(keys@),
            m == fields@,
            options@.len() == i,
            forall|k: int| 0 <= k < i ==> (#[trigger] options@[k])@ == curated_option(ks[k], m),
        decreases keys@.len() - i,
    {
        let k = keys[i];
        assert(k@ == ks[i as int]);
        let display = if k.switch {
            show_checkbox(fields.contains_key(k.key), k.label)
        } else {
            show_field(k.label, fields.get(k.key))
        };
        options.push(PickerEntry { display, value: Some(k.key.to_owned()) });
        i += 1;
    }
    assert(views(options@) == curated);
    let mut k: usize = 0;
    assert(curated + other_fields_upto(m, key_names(ks), 0) == curated);
    while k < fields.len()
        invariant
            k <= fields@.len(),
            ks == views(keys@),
            m == fields@,
            views(options@) == curated + other_fields_upto(m, key_names(ks), k as int),
        decreases fields@.len() - k,
    {
        broadcast use group_views;

        if !curated_contains(&keys, fields.key(k)) {
            let display = show_field(fields.key(k), Some(fields.value(k)));
            let ghost before = views(options@);
            options.push(PickerEntry { display, value: Some(fields.key(k).to_owned()) });
            assert(views(options@) == before.push(
                EntryView {
                    display: field_display(m[k as int].0, Some(m[k as int].1)),
                    value: Some(m[k as int].0),
                },
            ));
        }
        k += 1;
        assert(views(options@) == curated + other_fields_upto(m, key_names(ks), k as int));
    }
    let ghost before = views(options@);
    options.push(PickerEntry { display: "custom key…".to_owned(), value: None });
    assert(views(options@) == before + seq![custom_option()]);
    options
}

// ---------------------------------------------------------------------
// Opening and moving
// ---------------------------------------------------------------------

/// A picker that was just opened.
pub open spec fn fresh_picker(
    kind: PickerKindView,
    title: Seq<char>,
    options: Seq<EntryView>,
    selected: int,
) -> ModeView {
    ModeView::Picker {
        kind,
        title,
        options,
        selected: selected as usize,
        query: Seq::empty(),
        searching: false,
    }
}

/// A picker that was just opened.
pub fn open_picker(
    kind: PickerKind,
    title: String,
    options: Vec<PickerEntry>,
    selected: usize,
) -> (r: Mode)
    ensures
        r@ == fresh_picker(kind@, title@, views(options@), selected as int),
{
    Mode::Picker { kind, title, options, selected, query: String::new(), searching: false }
}

/// The containers that are offered first.
pub open spec fn common_containers() -> Seq<Seq<char>> {
    seq!["matroska"@, "mp4"@, "mov"@, "webm"@, "avi"@]
}

/// The file extension that goes with a common container.
pub open spec fn container_extension(name: Seq<char>) -> Option<Seq<char>> {
    if name == "matroska"@ {
        Some("mkv"@)
    } else if name == "mp4"@ {
        Some("mp4"@)
    } else if name == "mov"@ {
        Some("mov"@)
    } else if name == "webm"@ {
        Some("webm"@)
    } else if name == "avi"@ {
        Some("avi"@)
    } else {
        None
    }
}

fn extension_of_container(name: &str) -> (r: Option<&'static str>)
    ensures
        opt_str(r) == container_extension(name@),
{
    if same_text(name, "matroska") {
        Some("mkv")
    } else if same_text(name, "mp4") {
        Some("mp4")
    } else if same_text(name, "mov") {
        Some("mov")
    } else if same_text(name, "webm") {
        Some("webm")
    } else if same_text(name, "avi") {
        Some("avi")
    } else {
        None
    }
}

impl AppView {
    /// With the picker of a node's further options open.
    pub open spec fn open_extra_args_picker(self, target: ExtraArgsTarget) -> AppView {
        self.enter(
            fresh_picker(
                PickerKindView::ExtraArgField { target },
                "extra ffmpeg args: choose flag"@,
                extra_args_options(self.graph, target, self.has_teletext_decoder),
                0,
            ),
        )
    }

    /// 'f': the picker of containers for the focused output.
    pub open spec fn open_container_picker(self) -> AppView {
        match self.focus {
            Focus::Output(i) => if (i as int) < self.graph.outputs.len() {
                let output = self.graph.outputs[i as int];
                let options = options_spec(
                    "auto (infer from file extension)"@,
                    offered(common_containers(), self.available_muxers),
                );
                self.enter(
                    fresh_picker(
                        PickerKindView::Container { output: output.id },
                        "output container"@,
                        options,
                        selected_spec(options, output.container),
                    ),
                )
            } else {
                self
            },
            _ => self.say("focus an output node first, then 'f' picks its container"@),
        }
    }

    /// Up or Down: through the options that are shown.
    pub open spec fn picker_move(self, delta: int) -> AppView {
        match self.mode {
            ModeView::Picker { kind, title, options, selected, query, searching } => {
                let len = filtered(options, query).len() as int;
                if len == 0 {
                    self
                } else {
                    self.enter(
                        ModeView::Picker {
                            kind,
                            title,
                            options,
                            selected: turned(selected, delta, len),
                            query,
                            searching,
                        },
                    )
                }
            },
            _ => self,
        }
    }

    /// '/': starts a new query.
    pub open spec fn picker_start_search(self) -> AppView {
        match self.mode {
            ModeView::Picker { kind, title, options, .. } => self.enter(
                ModeView::Picker {
                    kind,
                    title,
                    options,
                    selected: 0,
                    query: Seq::empty(),
                    searching: true,
                },
            ),
            _ => self,
        }
    }

    /// With another query, and the first option that it shows selected.
    pub open spec fn set_query(self, q: Seq<char>) -> AppView {
        match self.mode {
            ModeView::Picker { kind, title, options, searching, .. } => self.enter(
                ModeView::Picker { kind, title, options, selected: 0, query: q, searching },
            ),
            _ => self,
        }
    }

    /// The query of the picker.
    pub open spec fn query(self) -> Seq<char> {
        match self.mode {
            ModeView::Picker { query, .. } => query,
            _ => Seq::empty(),
        }
    }

    /// Backspace in the query.
    pub open spec fn picker_search_backspace(self) -> AppView {
        let q = self.query();
        self.set_query(
            if q.len() > 0 {
                q.drop_last()
            } else {
                q
            },
        )
    }

    /// Enter in the query: keeps it, and goes back to the options.
    pub open spec fn picker_confirm_search(self) -> AppView {
        match self.mode {
            ModeView::Picker { kind, title, options, selected, query, .. } => self.enter(
                ModeView::Picker { kind, title, options, selected, query, searching: false },
            ),
            _ => self,
        }
    }

    /// Esc: drops the query where there is one, and else closes the picker.
    pub open spec fn picker_escape(self) -> AppView {
        match self.mode {
            ModeView::Picker { kind, title, options, query, searching, .. } => if searching
                || query.len() > 0 {
                self.enter(fresh_picker(kind, title, options, 0))
            } else {
                self.enter(ModeView::Normal)
            },
            _ => self.enter(ModeView::Normal),
        }
    }
}

impl App {
    /// Opens the picker of a node's further options.
    pub fn open_extra_args_picker(&mut self, target: ExtraArgsTarget)
        ensures
            final(self)@ == old(self)@.open_extra_args_picker(target),
    {
        let options = extra_args_picker_options(&self.graph, target, self.has_teletext_decoder);
        self.mode = open_picker(
            PickerKind::ExtraArgField { target },
            "extra ffmpeg args: choose flag".to_owned(),
            options,
            0,
        );
    }

    /// 'f': opens the picker of containers for the focused output.
    pub fn open_container_picker(&mut self)
        ensures
            final(self)@ == old(self)@.open_container_picker(),
    {
        let i: usize = match self.focus {
            Focus::Output(i) => i,
            _ => {
                self.say("focus an output node first, then 'f' picks its container");
                return;
            },
        };
        if i >= self.graph.outputs.len() {
            return;
        }
        let output_id: NodeId = self.graph.outputs[i].id;
        let common = vec![
            "matroska".to_owned(),
            "mp4".to_owned(),
            "mov".to_owned(),
            "webm".to_owned(),
            "avi".to_owned(),
        ];
        assert(views(common@) == common_containers());
        let names = prioritize_and_extend(&common, &self.available_muxers);
        let options = picker_options("auto (infer from file extension)", &names);
        let selected: usize = match &self.graph.outputs[i].container {
            Some(c) => selected_index(&options, Some(c.as_str())),
            None => selected_index(&options, None),
        };
        self.mode = open_picker(
            PickerKind::Container { output: output_id },
            "output container".to_owned(),
            options,
            selected,
        );
    }

    /// Up or Down: moves through the options that are shown.
    pub fn picker_move(&mut self, delta: isize)
        ensures
            final(self)@ == old(self)@.picker_move(delta as int),
    {
        if let Mode::Picker { options, selected, query, .. } = &mut self.mode {
            let len: usize = filtered_indices(options, query.as_str()).len();
            if len == 0 {
                return;
            }
            *selected = wrap_around(*selected, delta, len);
        }
    }

    /// '/': starts a new query.
    pub fn picker_start_search(&mut self)
        ensures
            final(self)@ == old(self)@.picker_start_search(),
    {
        if let Mode::Picker { query, searching, selected, .. } = &mut self.mode {
            *query = String::new();
            *searching = true;
            *selected = 0;
        }
    }

    /// A character for the query.
    pub fn picker_search_char(&mut self, c: char)
        ensures
            final(self)@ == old(self)@.set_query(old(self)@.query().push(c)),
    {
        if let Mode::Picker { query, selected, .. } = &mut self.mode {
            query.push(c);
            *selected = 0;
        }
    }

    /// Backspace in the query.
    pub fn picker_search_backspace(&mut self)
        ensures
            final(self)@ == old(self)@.picker_search_backspace(),
    {
        if let Mode::Picker { query, selected, .. } = &mut self.mode {
            let v = crate::text::chars_of(query.as_str());
            if v.len() > 0 {
                let ghost before = query@;
                *query = crate::text::text_of(&v, 0, v.len() - 1);
                assert(query@ == before.drop_last());
            }
            *selected = 0;
        }
    }

    /// Enter in the query: keeps it, and goes back to the options.
    pub fn picker_confirm_search(&mut self)
        ensures
            final(self)@ == old(self)@.picker_confirm_search(),
    {
        if let Mode::Picker { searching, .. } = &mut self.mode {
            *searching = false;
        }
    }

    /// Esc: drops the query where there is one, and else closes the picker.
    pub fn picker_escape(&mut self)
        ensures
            final(self)@ == old(self)@.picker_escape(),
    {
        if let Mode::Picker { query, searching, selected, .. } = &mut self.mode {
            if *searching || !query.as_str().is_empty() {
                *query = String::new();
                *searching = false;
                *selected = 0;
                return;
            }
        }
        self.mode = Mode::Normal;
    }
}

// ---------------------------------------------------------------------
// Choosing
// ---------------------------------------------------------------------

/// The flags of a disposition node; `None` where it is none.
pub open spec fn flags_of(g: GraphView, id: NodeId) -> Option<Seq<Seq<char>>> {
    match g.modifier(id) {
        Some(m) => match m.kind {
            KindView::Disposition { flags } => Some(flags),
            _ => None,
        },
        None => None,
    }
}

/// Whether an option takes no value.
pub open spec fn is_switch(target: ExtraArgsTarget, teletext: bool, key: Seq<char>) -> bool {
    let keys = curated_keys(target, teletext);
    match curated_from(keys, key, 0) {
        Some(i) => keys[i].switch,
        None => false,
    }
}

/// A filter with no parameter set.
pub open spec fn bare_filter(name: FilterName) -> KindView {
    KindView::Filter { name, fields: Seq::empty() }
}

/// The modifier that an entry of the list of nodes stands for, and its name.
pub open spec fn new_modifier(value: Option<Seq<char>>) -> (KindView, Seq<char>) {
    if value == Some("metadata"@) {
        (KindView::Metadata { fields: Seq::empty() }, "metadata"@)
    } else if value == Some("disposition"@) {
        (KindView::Disposition { flags: Seq::empty() }, "disposition"@)
    } else if value == Some("chapters"@) {
        (KindView::ChapterEdit { chapters: Seq::empty() }, "chapters"@)
    } else if value == Some("shift"@) {
        (bare_filter(FilterName::Shift), "shift"@)
    } else if value == Some("volume"@) {
        (bare_filter(FilterName::Volume), "volume"@)
    } else if value == Some("scale"@) {
        (bare_filter(FilterName::Scale), "scale"@)
    } else if value == Some("crop"@) {
        (bare_filter(FilterName::Crop), "crop"@)
    } else if value == Some("fade"@) {
        (bare_filter(FilterName::Fade), "fade"@)
    } else if value == Some("rotate"@) {
        (bare_filter(FilterName::Rotate), "rotate"@)
    } else if value == Some("trim"@) {
        (bare_filter(FilterName::Trim), "trim"@)
    } else if value == Some("concat"@) {
        (KindView::Concat, "concat"@)
    } else {
        (KindView::Convert(CodecView::Copy), "convert"@)
    }
}

fn filter_modifier(name: FilterName) -> (r: ModifierKind)
    ensures
        r@ == bare_filter(name),
{
    ModifierKind::Filter { name, fields: FieldMap::new() }
}

fn modifier_for(value: &Option<String>) -> (r: (ModifierKind, &'static str))
    ensures
        (r.0@, r.1@) == new_modifier(opt_text(*value)),
{
    if same_opt(value, "metadata") {
        (ModifierKind::Metadata { fields: FieldMap::new() }, "metadata")
    } else if same_opt(value, "disposition") {
        (ModifierKind::Disposition { flags: FlagSet::new() }, "disposition")
    } else if same_opt(value, "chapters") {
        let chapters: Vec<Chapter> = Vec::new();
        assert(views(chapters@) == Seq::<ChapterView>::empty());
        (ModifierKind::ChapterEdit { chapters }, "chapters")
    } else if same_opt(value, "shift") {
        (filter_modifier(FilterName::Shift), "shift")
    } else if same_opt(value, "volume") {
        (filter_modifier(FilterName::Volume), "volume")
    } else if same_opt(value, "scale") {
        (filter_modifier(FilterName::Scale), "scale")
    } else if same_opt(value, "crop") {
        (filter_modifier(FilterName::Crop), "crop")
    } else if same_opt(value, "fade") {
        (filter_modifier(FilterName::Fade), "fade")
    } else if same_opt(value, "rotate") {
        (filter_modifier(FilterName::Rotate), "rotate")
    } else if same_opt(value, "trim") {
        (filter_modifier(FilterName::Trim), "trim")
    } else if same_opt(value, "concat") {
        (ModifierKind::Concat, "concat")
    } else {
        (ModifierKind::Convert(Codec::Copy), "convert")
    }
}

/// The path of an output that is given a container: with the container's
/// extension, where that is a common one.
pub open spec fn path_for_container(path: Seq<char>, name: Seq<char>) -> Seq<char> {
    match container_extension(name) {
        Some(ext) => stem_spec(path) + "."@ + ext,
        None => path,
    }
}

impl AppView {
    /// With a disposition flag toggled.
    pub open spec fn toggle_flag(self, modifier: NodeId, flag: Seq<char>) -> AppView {
        match flags_of(self.graph, modifier) {
            Some(flags) => self.with_graph(
                set_kind(
                    self.graph,
                    modifier,
                    KindView::Disposition { flags: flag_toggle(flags, flag) },
                ),
            ).say(flag + " toggled"@),
            None => self,
        }
    }

    /// With a further option that takes no value switched on or off.
    pub open spec fn toggle_switch(self, target: ExtraArgsTarget, key: Seq<char>) -> AppView {
        match extra_args(self.graph, target) {
            Some(m) => if field_get(m, key) is Some {
                self.with_graph(set_extra_args(self.graph, target, field_unset(m, key))).say(
                    key + " disabled"@,
                )
            } else {
                self.with_graph(
                    set_extra_args(self.graph, target, field_set(m, key, Seq::empty())),
                ).say(key + " enabled"@)
            },
            None => self,
        }
    }

    /// With a codec chosen for a convert node.
    pub open spec fn choose_codec(self, modifier: NodeId, value: Option<Seq<char>>) -> AppView {
        let codec = match value {
            None => CodecView::Copy,
            Some(name) => CodecView::Encode(name),
        };
        let line = match codec {
            CodecView::Copy => "codec set to copy (no re-encode)"@,
            CodecView::Encode(_) => "codec set to "@ + codec.label(),
        };
        self.say(line).with_graph(set_kind(self.graph, modifier, KindView::Convert(codec)))
    }

    /// With a container chosen for an output, and its path brought in line.
    pub open spec fn choose_container(self, output: NodeId, value: Option<Seq<char>>) -> AppView {
        match self.graph.output_at(output) {
            None => self,
            Some(i) => {
                let node = self.graph.outputs[i];
                match value {
                    Some(name) => {
                        let path = path_for_container(node.path, name);
                        self.with_graph(
                            self.graph.set_output(i, OutputView { container: value, path, ..node }),
                        ).say("output container set to "@ + name + " ("@ + path + ")"@)
                    },
                    None => self.with_graph(
                        self.graph.set_output(i, OutputView { container: None, ..node }),
                    ).say("output container set to auto (inferred from file extension)"@),
                }
            },
        }
    }

    /// With a new node, focused; or asking for the path of a new input.
    pub open spec fn choose_node(self, value: Option<Seq<char>>) -> (AppView, RequestView) {
        if value == Some("input"@) {
            self.start_add_input()
        } else if value == Some("output"@) {
            (self.add_output_node(), RequestView::Nothing)
        } else {
            let (kind, name) = new_modifier(value);
            let a = self.with_graph(self.graph.add_modifier(kind));
            (
                a.set_focus_index(a.node_count() - a.graph.outputs.len() - 1).say(
                    "added "@ + name + " node"@,
                ),
                RequestView::Nothing,
            )
        }
    }

    /// Asking for the value of a metadata field, or for the name of one.
    pub open spec fn choose_metadata_key(self, modifier: NodeId, value: Option<Seq<char>>) -> AppView {
        match value {
            Some(key) => self.enter(
                text_mode(
                    TargetView::ModifierMetadataValue { modifier, key },
                    current_value(self.graph, Store::Metadata(modifier), key),
                    Seq::empty(),
                ),
            ),
            None => self.enter(
                text_mode(TargetView::ModifierCustomKey(modifier), Seq::empty(), Seq::empty()),
            ),
        }
    }

    /// Asking for the value of a filter parameter: from a list where it
    /// accepts a fixed set.
    pub open spec fn choose_filter_field(self, modifier: NodeId, value: Option<Seq<char>>) -> AppView {
        match (value, self.graph.modifier(modifier)) {
            (Some(key), Some(m)) => match m.kind {
                KindView::Filter { name, fields } => match name.value_options_spec(key) {
                    Some(values) => {
                        let options = options_spec("(not set)"@, values);
                        self.enter(
                            fresh_picker(
                                PickerKindView::FilterFieldValue { modifier, key },
                                name.label_spec() + ": "@ + key,
                                options,
                                selected_spec(options, field_get(fields, key)),
                            ),
                        )
                    },
                    None => self.enter(
                        text_mode(
                            TargetView::ModifierFilterValue { modifier, key },
                            current_value(self.graph, Store::Filter(modifier), key),
                            Seq::empty(),
                        ),
                    ),
                },
                _ => self,
            },
            _ => self,
        }
    }

    /// With a listed value, or none, for a filter parameter.
    pub open spec fn choose_filter_value(
        self,
        modifier: NodeId,
        key: Seq<char>,
        value: Option<Seq<char>>,
    ) -> AppView {
        match stored(self.graph, Store::Filter(modifier)) {
            Some(m) => match value {
                Some(v) => self.with_graph(
                    set_stored(self.graph, Store::Filter(modifier), field_set(m, key, v)),
                ).say(key + " set to "@ + v),
                None => self.with_graph(
                    set_stored(self.graph, Store::Filter(modifier), field_unset(m, key)),
                ).say(key + " cleared"@),
            },
            None => self,
        }
    }

    /// Asking for the value of a further option, or for the name of one.
    pub open spec fn choose_extra_arg(
        self,
        target: ExtraArgsTarget,
        value: Option<Seq<char>>,
    ) -> AppView {
        match value {
            Some(key) => self.enter(
                text_mode(
                    TargetView::ExtraArgValue { target, key },
                    current_value(self.graph, Store::ExtraArgs(target), key),
                    Seq::empty(),
                ),
            ),
            None => self.enter(
                text_mode(TargetView::ExtraArgCustomKey(target), Seq::empty(), Seq::empty()),
            ),
        }
    }

    /// What choosing an entry of a picker that has closed does.
    pub open spec fn choose_entry(self, kind: PickerKindView, value: Option<Seq<char>>) -> (
        AppView,
        RequestView,
    ) {
        match kind {
            PickerKindView::Codec { modifier } => (
                self.choose_codec(modifier, value),
                RequestView::Nothing,
            ),
            PickerKindView::Container { output } => (
                self.choose_container(output, value),
                RequestView::Nothing,
            ),
            PickerKindView::NewNode => self.choose_node(value),
            PickerKindView::MetadataKey { modifier } => (
                self.choose_metadata_key(modifier, value),
                RequestView::Nothing,
            ),
            PickerKindView::DispositionFlags { .. } => (self, RequestView::Nothing),
            PickerKindView::FilterField { modifier } => (
                self.choose_filter_field(modifier, value),
                RequestView::Nothing,
            ),
            PickerKindView::FilterFieldValue { modifier, key } => (
                self.choose_filter_value(modifier, key, value),
                RequestView::Nothing,
            ),
            PickerKindView::ExtraArgField { target } => (
                self.choose_extra_arg(target, value),
                RequestView::Nothing,
            ),
        }
    }

    /// Whether a node to add is being picked.
    pub open spec fn picks_node(self) -> bool {
        self.mode matches ModeView::Picker { kind, .. } && kind is NewNode
    }

    /// Enter: chooses the selected entry. The picker closes, but for the lists
    /// whose entries are toggled: those stay open, drawn anew.
    pub open spec fn picker_confirm(self) -> (AppView, RequestView) {
        match self.mode {
            ModeView::Picker { kind, title, options, selected, query, searching } => {
                let at = filtered(options, query);
                let entry = if (selected as int) < at.len() {
                    Some(options[at[selected as int] as int])
                } else {
                    None
                };
                match kind {
                    PickerKindView::DispositionFlags { modifier } => {
                        let toggled = match entry {
                            Some(EntryView { value: Some(flag), .. }) => self.toggle_flag(
                                modifier,
                                flag,
                            ),
                            _ => self,
                        };
                        let options = match flags_of(toggled.graph, modifier) {
                            Some(flags) => disposition_options(flags),
                            None => Seq::empty(),
                        };
                        (
                            toggled.enter(
                                ModeView::Picker { kind, title, options, selected, query, searching },
                            ),
                            RequestView::Nothing,
                        )
                    },
                    _ => match (kind, entry) {
                        (
                            PickerKindView::ExtraArgField { target },
                            Some(EntryView { value: Some(key), .. }),
                        ) if is_switch(target, self.has_teletext_decoder, key) => {
                            let toggled = self.toggle_switch(target, key);
                            (
                                toggled.enter(
                                    ModeView::Picker {
                                        kind,
                                        title,
                                        options: extra_args_options(
                                            toggled.graph,
                                            target,
                                            self.has_teletext_decoder,
                                        ),
                                        selected,
                                        query,
                                        searching,
                                    },
                                ),
                                RequestView::Nothing,
                            )
                        },
                        (_, Some(e)) => self.enter(ModeView::Normal).choose_entry(kind, e.value),
                        (_, None) => (self.enter(ModeView::Normal), RequestView::Nothing),
                    },
                }
            },
            _ => (self.enter(ModeView::Normal), RequestView::Nothing),
        }
    }
}

impl App {
    fn toggle_flag(&mut self, modifier: NodeId, flag: String)
        ensures
            final(self)@ == old(self)@.toggle_flag(modifier, flag@),
    {
        broadcast use group_views;

        let line = cat2(flag.as_str(), " toggled");
        let toggled = match self.graph.modifier_mut(modifier) {
            Some(m) => match &mut m.kind {
                ModifierKind::Disposition { flags } => {
                    if !flags.remove(flag.as_str()) {
                        flags.insert(flag);
                    }
                    true
                },
                _ => false,
            },
            None => false,
        };
        if toggled {
            self.say(line.as_str());
        }
    }

    fn toggle_switch(&mut self, target: ExtraArgsTarget, key: String)
        ensures
            final(self)@ == old(self)@.toggle_switch(target, key@),
    {
        let off = cat2(key.as_str(), " disabled");
        let on = cat2(key.as_str(), " enabled");
        let line = match extra_args_of_mut(&mut self.graph, target) {
            Some(m) => {
                if m.contains_key(key.as_str()) {
                    m.remove(key.as_str());
                    Some(off)
                } else {
                    m.insert(key, String::new());
                    Some(on)
                }
            },
            None => None,
        };
        if let Some(line) = line {
            self.say(line.as_str());
        }
    }

    fn choose_codec(&mut self, modifier: NodeId, value: Option<String>)
        ensures
            final(self)@ == old(self)@.choose_codec(modifier, opt_text(value)),
    {
        broadcast use group_views;

        let codec = match value {
            None => Codec::Copy,
            Some(name) => Codec::Encode(name),
        };
        let line = match &codec {
            Codec::Copy => "codec set to copy (no re-encode)".to_owned(),
            Codec::Encode(_) => cat2("codec set to ", codec.label()),
        };
        self.say(line.as_str());
        if let Some(m) = self.graph.modifier_mut(modifier) {
            m.kind = ModifierKind::Convert(codec);
        }
    }

    fn choose_container(&mut self, output: NodeId, value: Option<String>)
        ensures
            final(self)@ == old(self)@.choose_container(output, opt_text(value)),
    {
        broadcast use group_views;

        let line = match self.graph.output_mut(output) {
            None => None,
            Some(node) => match value {
                Some(name) => {
                    if let Some(ext) = extension_of_container(name.as_str()) {
                        let stem = without_extension(node.path.as_str());
                        node.path = cat3(stem.as_str(), ".", ext);
                    }
                    let line = cat5(
                        "output container set to ",
                        name.as_str(),
                        " (",
                        node.path.as_str(),
                        ")",
                    );
                    node.container = Some(name);
                    Some(line)
                },
                None => {
                    node.container = None;
                    Some("output container set to auto (inferred from file extension)".to_owned())
                },
            },
        };
        if let Some(line) = line {
            self.say(line.as_str());
        }
    }

    fn choose_node(&mut self, value: Option<String>) -> (r: Request)
        requires
            old(self).graph.next_id < usize::MAX,
        ensures
            (final(self)@, r@) == old(self)@.choose_node(opt_text(value)),
    {
        if same_opt(&value, "input") {
            return self.start_add_input();
        }
        if same_opt(&value, "output") {
            self.add_output_node();
            return Request::Nothing;
        }
        let (kind, name) = modifier_for(&value);
        self.graph.add_modifier(kind);
        let idx: u128 = self.node_count() - self.graph.outputs.len() as u128 - 1;
        self.set_focus_index(idx);
        let line = cat3("added ", name, " node");
        self.say(line.as_str());
        Request::Nothing
    }

    /// Asks for a text that replaces `current`.
    fn ask(&mut self, target: TextTarget, current: String)
        ensures
            final(self)@ == old(self)@.enter(text_mode(target@, current@, Seq::empty())),
    {
        let none: Vec<String> = Vec::new();
        assert(views(none@) == Seq::<Seq<char>>::empty());
        self.mode = text_input_mode(target, current, none);
    }

    fn choose_metadata_key(&mut self, modifier: NodeId, value: Option<String>)
        ensures
            final(self)@ == old(self)@.choose_metadata_key(modifier, opt_text(value)),
    {
        match value {
            Some(key) => {
                let current = value_in(&self.graph, Store::Metadata(modifier), key.as_str());
                self.ask(TextTarget::ModifierMetadataValue { modifier, key }, current);
            },
            None => {
                self.ask(TextTarget::ModifierCustomKey(modifier), String::new());
            },
        }
    }

    fn choose_filter_field(&mut self, modifier: NodeId, value: Option<String>)
        ensures
            final(self)@ == old(self)@.choose_filter_field(modifier, opt_text(value)),
    {
        let key = match value {
            Some(key) => key,
            None => {
                return;
            },
        };
        let listed = match self.graph.modifier(modifier) {
            Some(m) => match &m.kind {
                ModifierKind::Filter { name, fields } => match name.value_options(key.as_str()) {
                    Some(values) => {
                        let names = owned_texts(&values);
                        let options = picker_options("(not set)", &names);
                        let selected: usize = selected_index(&options, fields.get(key.as_str()));
                        Some((cat3(name.label(), ": ", key.as_str()), options, selected))
                    },
                    None => None,
                },
                _ => {
                    return;
                },
            },
            None => {
                return;
            },
        };
        match listed {
            Some((title, options, selected)) => {
                self.mode = open_picker(
                    PickerKind::FilterFieldValue { modifier, key },
                    title,
                    options,
                    selected,
                );
            },
            None => {
                let current = value_in(&self.graph, Store::Filter(modifier), key.as_str());
                self.ask(TextTarget::ModifierFilterValue { modifier, key }, current);
            },
        }
    }

    fn choose_filter_value(&mut self, modifier: NodeId, key: String, value: Option<String>)
        ensures
            final(self)@ == old(self)@.choose_filter_value(modifier, key@, opt_text(value)),
    {
        let line = match &value {
            Some(v) => cat3(key.as_str(), " set to ", v.as_str()),
            None => cat2(key.as_str(), " cleared"),
        };
        let changed = match store_of_mut(&mut self.graph, Store::Filter(modifier)) {
            Some(m) => {
                match value {
                    Some(v) => {
                        m.insert(key, v);
                    },
                    None => {
                        m.remove(key.as_str());
                    },
                }
                true
            },
            None => false,
        };
        if changed {
            self.say(line.as_str());
        }
    }

    fn choose_extra_arg(&mut self, target: ExtraArgsTarget, value: Option<String>)
        ensures
            final(self)@ == old(self)@.choose_extra_arg(target, opt_text(value)),
    {
        match value {
            Some(key) => {
                let current = value_in(&self.graph, Store::ExtraArgs(target), key.as_str());
                self.ask(TextTarget::ExtraArgValue { target, key }, current);
            },
            None => {
                self.ask(TextTarget::ExtraArgCustomKey(target), String::new());
            },
        }
    }

    fn choose_entry(&mut self, kind: PickerKind, value: Option<String>) -> (r: Request)
        requires
            kind@ is NewNode ==> old(self).graph.next_id < usize::MAX,
        ensures
            (final(self)@, r@) == old(self)@.choose_entry(kind@, opt_text(value)),
    {
        match kind {
            PickerKind::Codec { modifier } => {
                self.choose_codec(modifier, value);
            },
            PickerKind::Container { output } => {
                self.choose_container(output, value);
            },
            PickerKind::NewNode => {
                return self.choose_node(value);
            },
            PickerKind::MetadataKey { modifier } => {
                self.choose_metadata_key(modifier, value);
            },
            PickerKind::DispositionFlags { .. } => {},
            PickerKind::FilterField { modifier } => {
                self.choose_filter_field(modifier, value);
            },
            PickerKind::FilterFieldValue { modifier, key } => {
                self.choose_filter_value(modifier, key, value);
            },
            PickerKind::ExtraArgField { target } => {
                self.choose_extra_arg(target, value);
            },
        }
        Request::Nothing
    }

    /// Enter: chooses the selected entry. The picker closes, but for the lists
    /// whose entries are toggled: those stay open, drawn anew.
    pub fn picker_confirm(&mut self) -> (r: Request)
        requires
            old(self)@.picks_node() ==> old(self).graph.next_id < usize::MAX,
        ensures
            (final(self)@, r@) == old(self)@.picker_confirm(),
    {
        let mut mode = Mode::Normal;
        std::mem::swap(&mut mode, &mut self.mode);
        let (kind, title, options, selected, query, searching) = match mode {
            Mode::Picker { kind, title, options, selected, query, searching } => {
                (kind, title, options, selected, query, searching)
            },
            _ => {
                return Request::Nothing;
            },
        };
        let at = filtered_indices(&options, query.as_str());
        if let PickerKind::DispositionFlags { modifier } = kind {
            if selected < at.len() {
                assert(views(options@)[at@[selected as int] as int] == options@[at@[selected as int] as int]@);
                if let Some(flag) = opt_copy(&options[at[selected]].value) {
                    self.toggle_flag(modifier, flag);
                }
            }
            let options = self.flag_options(modifier);
            self.mode = Mode::Picker {
                kind: PickerKind::DispositionFlags { modifier },
                title,
                options,
                selected,
                query,
                searching,
            };
            return Request::Nothing;
        }
        if selected >= at.len() {
            return Request::Nothing;
        }
        assert(views(options@)[at@[selected as int] as int] == options@[at@[selected as int] as int]@);
        let value = opt_copy(&options[at[selected]].value);
        if let PickerKind::ExtraArgField { target } = kind {
            if let Some(key) = &value {
                if self.takes_no_value(target, key.as_str()) {
                    self.toggle_switch(target, key.clone());
                    let options = extra_args_picker_options(
                        &self.graph,
                        target,
                        self.has_teletext_decoder,
                    );
                    self.mode = Mode::Picker {
                        kind: PickerKind::ExtraArgField { target },
                        title,
                        options,
                        selected,
                        query,
                        searching,
                    };
                    return Request::Nothing;
                }
            }
        }
        self.choose_entry(kind, value)
    }

    fn flag_options(&self, modifier: NodeId) -> (r: Vec<PickerEntry>)
        ensures
            views(r@) == (match flags_of(self@.graph, modifier) {
                Some(flags) => disposition_options(flags),
                None => Seq::empty(),
            }),
    {
        broadcast use group_views;

        match self.graph.modifier(modifier) {
            Some(m) => match &m.kind {
                ModifierKind::Disposition { flags } => disposition_picker_options(flags),
                _ => Vec::new(),
            },
            None => Vec::new(),
        }
    }

    fn takes_no_value(&self, target: ExtraArgsTarget, key: &str) -> (r: bool)
        ensures
            r == is_switch(target, self.has_teletext_decoder, key@),
    {
        let keys = curated_extra_arg_keys(target, self.has_teletext_decoder);
        match find_curated(&keys, key) {
            Some(i) => {
                assert(views(keys@)[i as int] == keys@[i as int]@);
                keys[i].switch
            },
            None => false,
        }
    }
}

fn owned_texts(v: &Vec<&'static str>) -> (r: Vec<String>)
    ensures
        views(r@) == views(v@),
{
    let mut out: Vec<String> = Vec::new();
    let mut i: usize = 0;
    while i < v.len()
        invariant
            i <= v@.len(),
            out@.len() == i,
            forall|k: int| 0 <= k < i ==> (#[trigger] out@[k])@ == v@[k]@,
        decreases v@.len() - i,
    {
        out.push(v[i].to_owned());
        i += 1;
    }
    assert(views(out@) == views(v@));
    out
}

} // verus!

//! The configuration overlay of a node: a tree of plain values.

use vstd::prelude::*;
use vstd::string::*;
use crate::order::{
    char_views, sorted_order, text_le, text_less, sort_positions, sorted_order_is_sorted,
    text_less_is_one_way, text_order_is_total,
};
use crate::text::{chars_of, decimal, joined, views, push_decimal, push_joined};
use crate::yaml::{
    distinct_names, float_debug, float_shown, int_number, number_float, number_int,
    shape_tree, str_debug, unique_keys, yaml_tree, YamlShape, YamlTree, debug_text_of,
    float_debug_text,
    float_text, number_as_float, number_as_int, open_yaml, yaml_bool, yaml_int, yaml_mapping,
    yaml_null, yaml_number, yaml_sequence, yaml_string,
};

verus! {

/// An overlay: a scalar, a list, or a map from names to overlays. A map is
/// held as its entries in the order in which they were given; no name
/// occurs twice in a well-formed one.
#[derive(Debug)]
pub enum ScyllaConfig {
    Null,
    Bool(bool),
    Int(i64),
    Float(serde_yaml::Number),
    String(String),
    List(Vec<ScyllaConfig>),
    Mapping(Vec<(String, ScyllaConfig)>),
}

/// What an overlay holds.
pub ghost enum ConfigTree {
    Null,
    Bool(bool),
    Int(i64),
    Float(serde_yaml::Number),
    String(Seq<char>),
    List(Seq<ConfigTree>),
    Mapping(Seq<(Seq<char>, ConfigTree)>),
}

/// The views of the items of a list, in order.
pub open spec fn list_view(items: Seq<ScyllaConfig>) -> Seq<ConfigTree>
    decreases items,
{
    if items.len() == 0 {
        Seq::empty()
    } else {
        list_view(items.drop_last()).push(items.last().view())
    }
}

/// The views of the entries of a map, in order.
pub open spec fn entries_view(entries: Seq<(String, ScyllaConfig)>) -> Seq<(Seq<char>, ConfigTree)>
    decreases entries,
{
    if entries.len() == 0 {
        Seq::empty()
    } else {
        entries_view(entries.drop_last()).push((entries.last().0@, entries.last().1.view()))
    }
}

impl View for ScyllaConfig {
    type V = ConfigTree;

    open spec fn view(&self) -> ConfigTree
        decreases self,
    {
        match self {
            ScyllaConfig::Null => ConfigTree::Null,
            ScyllaConfig::Bool(b) => ConfigTree::Bool(*b),
            ScyllaConfig::Int(i) => ConfigTree::Int(*i),
            ScyllaConfig::Float(f) => ConfigTree::Float(*f),
            ScyllaConfig::String(s) => ConfigTree::String(s@),
            ScyllaConfig::List(items) => ConfigTree::List(list_view(items@)),
            ScyllaConfig::Mapping(entries) => ConfigTree::Mapping(entries_view(entries@)),
        }
    }
}

/// The view of a list goes item by item.
pub proof fn list_view_at(items: Seq<ScyllaConfig>)
    ensures
        list_view(items).len() == items.len(),
        forall|i: int| 0 <= i < items.len() ==> (#[trigger] list_view(items)[i]) == items[i]@,
    decreases items.len(),
{
    if items.len() > 0 {
        list_view_at(items.drop_last());
        assert(list_view(items) == list_view(items.drop_last()).push(items.last().view()));
    } else {
        assert(list_view(items) == Seq::<ConfigTree>::empty());
    }
}

/// The view of a map goes entry by entry.
pub proof fn entries_view_at(entries: Seq<(String, ScyllaConfig)>)
    ensures
        entries_view(entries).len() == entries.len(),
        forall|i: int|
            0 <= i < entries.len() ==> (#[trigger] entries_view(entries)[i]) == (
                entries[i].0@,
                entries[i].1@,
            ),
    decreases entries.len(),
{
    if entries.len() > 0 {
        entries_view_at(entries.drop_last());
        assert(entries_view(entries) == entries_view(entries.drop_last()).push(
            (entries.last().0@, entries.last().1.view()),
        ));
    } else {
        assert(entries_view(entries) == Seq::<(Seq<char>, ConfigTree)>::empty());
    }
}

impl Clone for ScyllaConfig {
    fn clone(&self) -> (r: ScyllaConfig)
        ensures
            r@ == self@,
    {
        self.duplicate()
    }
}

impl ScyllaConfig {
    /// A copy of the overlay.
    pub fn duplicate(&self) -> (r: ScyllaConfig)
        ensures
            r@ == self@,
        decreases self,
    {
        match self {
            ScyllaConfig::Null => ScyllaConfig::Null,
            ScyllaConfig::Bool(b) => ScyllaConfig::Bool(*b),
            ScyllaConfig::Int(i) => ScyllaConfig::Int(*i),
            ScyllaConfig::Float(f) => ScyllaConfig::Float(f.clone()),
            ScyllaConfig::String(s) => ScyllaConfig::String(s.clone()),
            ScyllaConfig::List(items) => {
                let mut out: Vec<ScyllaConfig> = Vec::new();
                let mut i: usize = 0;
                while i < items.len()
                    invariant
                        i <= items.len(),
                        *self == ScyllaConfig::List(*items),
                        out@.len() == i,
                        forall|j: int| 0 <= j < i ==> (#[trigger] out@[j])@ == items@[j]@,
                    decreases items.len() - i,
                {
                    proof {
                        assert(self->List_0 == *items);
                        assert(decreases_to!(*self => self->List_0));
                        assert(decreases_to!(self->List_0 => self->List_0@));
                        assert(decreases_to!(self->List_0@ => self->List_0@[i as int]));
                    }
                    out.push(items[i].duplicate());
                    i = i + 1;
                }
                let r = ScyllaConfig::List(out);
                proof {
                    list_view_at(out@);
                    list_view_at(items@);
                }
                assert(r@->List_0 =~= self@->List_0);
                r
            },
            ScyllaConfig::Mapping(entries) => {
                let mut out: Vec<(String, ScyllaConfig)> = Vec::new();
                let mut i: usize = 0;
                while i < entries.len()
                    invariant
                        i <= entries.len(),
                        *self == ScyllaConfig::Mapping(*entries),
                        out@.len() == i,
                        forall|j: int|
                            0 <= j < i ==> (#[trigger] out@[j]).0@ == entries@[j].0@ && out@[j].1@
                                == entries@[j].1@,
                    decreases entries.len() - i,
                {
                    proof {
                        assert(self->Mapping_0 == *entries);
                        assert(decreases_to!(*self => self->Mapping_0));
                        assert(decreases_to!(self->Mapping_0 => self->Mapping_0@));
                        assert(decreases_to!(self->Mapping_0@ => self->Mapping_0@[i as int]));
                        assert(decreases_to!(self->Mapping_0@[i as int] => self->Mapping_0@[i as int].1));
                    }
                    out.push((entries[i].0.clone(), entries[i].1.duplicate()));
                    i = i + 1;
                }
                let r = ScyllaConfig::Mapping(out);
                proof {
                    entries_view_at(out@);
                    entries_view_at(entries@);
                }
                assert(r@->Mapping_0 =~= self@->Mapping_0);
                r
            },
        }
    }
}

impl Default for ScyllaConfig {
    fn default() -> (r: ScyllaConfig)
        ensures
            r == ScyllaConfig::Null,
    {
        ScyllaConfig::Null
    }
}

/// The names of the entries of a map, in order.
pub open spec fn names_of(entries: Seq<(Seq<char>, ConfigTree)>) -> Seq<Seq<char>> {
    Seq::new(entries.len(), |i: int| entries[i].0)
}

/// The text of a boolean.
pub open spec fn bool_text(b: bool) -> Seq<char> {
    if b {
        "true"@
    } else {
        "false"@
    }
}

/// The diagnostic texts of the items of a list, in order.
pub open spec fn debug_items(items: Seq<ConfigTree>) -> Seq<Seq<char>>
    decreases items,
{
    if items.len() == 0 {
        Seq::empty()
    } else {
        debug_items(items.drop_last()).push(debug_text(items.last()))
    }
}

/// The diagnostic texts of the entries of a map, in order: the name in
/// quotes, a colon and a space, and the diagnostic text of the value.
pub open spec fn debug_entries(entries: Seq<(Seq<char>, ConfigTree)>) -> Seq<Seq<char>>
    decreases entries,
{
    if entries.len() == 0 {
        Seq::empty()
    } else {
        debug_entries(entries.drop_last()).push(
            str_debug(entries.last().0) + ": "@ + debug_text(entries.last().1),
        )
    }
}

/// The diagnostic text of an overlay: the name of its kind and, in round
/// brackets, what it holds.
pub open spec fn debug_text(tree: ConfigTree) -> Seq<char>
    decreases tree,
{
    match tree {
        ConfigTree::Null => "Null"@,
        ConfigTree::Bool(b) => "Bool("@ + bool_text(b) + ")"@,
        ConfigTree::Int(i) => "Int("@ + decimal(i as int) + ")"@,
        ConfigTree::Float(f) => "Float("@ + float_debug(f) + ")"@,
        ConfigTree::String(s) => "String("@ + str_debug(s) + ")"@,
        ConfigTree::List(items) => "List(["@ + joined(debug_items(items), ", "@) + "])"@,
        ConfigTree::Mapping(entries) => "Map({"@ + joined(debug_entries(entries), ", "@) + "})"@,
    }
}

/// The name of an entry below `prefix`: the name alone at the top, else
/// the prefix, a dot and the name.
pub open spec fn full_name(prefix: Seq<char>, name: Seq<char>) -> Seq<char> {
    if prefix.len() == 0 {
        name
    } else {
        prefix + "."@ + name
    }
}

/// The flat lines of the entries at the positions `order`, in that order.
pub open spec fn flat_entries(
    entries: Seq<(Seq<char>, ConfigTree)>,
    order: Seq<usize>,
    prefix: Seq<char>,
) -> Seq<Seq<char>>
    decreases entries, order.len(),
{
    if order.len() == 0 {
        Seq::empty()
    } else if 0 <= order.last() < entries.len() {
        flat_entries(entries, order.drop_last(), prefix) + flat_entry(
            entries[order.last() as int],
            prefix,
        )
    } else {
        flat_entries(entries, order.drop_last(), prefix)
    }
}

/// The flat lines of one entry: those of its entries for a map, under the
/// entry's full name; for anything else one line, the full name, a colon
/// and the value. A list stands in square brackets, as the diagnostic
/// texts of its items, separated by a comma and a space.
pub open spec fn flat_entry(entry: (Seq<char>, ConfigTree), prefix: Seq<char>) -> Seq<Seq<char>>
    decreases entry, 0nat,
{
    let name = full_name(prefix, entry.0);
    match entry.1 {
        ConfigTree::Mapping(inner) => flat_entries(
            inner,
            sorted_order(names_of(inner), inner.len()),
            name,
        ),
        ConfigTree::String(s) => seq![name + ":"@ + s],
        ConfigTree::Int(i) => seq![name + ":"@ + decimal(i as int)],
        ConfigTree::Float(f) => seq![name + ":"@ + float_shown(f)],
        ConfigTree::Bool(b) => seq![name + ":"@ + bool_text(b)],
        ConfigTree::Null => seq![name + ":null"@],
        ConfigTree::List(items) => seq![
            name + ":["@ + joined(debug_items(items), ", "@) + "]"@,
        ],
    }
}

/// The flat lines of the entries of a map, in ascending order of their
/// names.
pub open spec fn flat_map(entries: Seq<(Seq<char>, ConfigTree)>, prefix: Seq<char>) -> Seq<
    Seq<char>,
>
{
    flat_entries(entries, sorted_order(names_of(entries), entries.len()), prefix)
}

/// The flat form of an overlay: for a map its flat lines, separated by
/// spaces; for anything else the empty text.
pub open spec fn flat_text(tree: ConfigTree) -> Seq<char> {
    match tree {
        ConfigTree::Mapping(entries) => joined(flat_map(entries, Seq::empty()), " "@),
        _ => Seq::empty(),
    }
}

fn bool_str(b: bool) -> (r: &'static str)
    ensures
        r@ == bool_text(b),
{
    if b {
        "true"
    } else {
        "false"
    }
}

impl ScyllaConfig {
    /// The diagnostic text of the overlay.
    pub fn debug_string(&self) -> (r: String)
        ensures
            r@ == debug_text(self@),
        decreases self,
    {
        match self {
            ScyllaConfig::Null => "Null".to_owned(),
            ScyllaConfig::Bool(b) => {
                let mut out = "Bool(".to_owned();
                out.append(bool_str(*b));
                out.append(")");
                out
            },
            ScyllaConfig::Int(i) => {
                let mut out = "Int(".to_owned();
                push_decimal(&mut out, *i);
                out.append(")");
                out
            },
            ScyllaConfig::Float(f) => {
                let mut out = "Float(".to_owned();
                out.append(float_debug_text(f).unwrap().as_str());
                out.append(")");
                out
            },
            ScyllaConfig::String(s) => {
                let mut out = "String(".to_owned();
                out.append(debug_text_of(s.as_str()).as_str());
                out.append(")");
                out
            },
            ScyllaConfig::List(items) => {
                let texts = debug_list(items);
                let mut out = "List([".to_owned();
                push_joined(&mut out, &texts, ", ");
                out.append("])");
                out
            },
            ScyllaConfig::Mapping(entries) => {
                let mut texts: Vec<String> = Vec::new();
                let mut i: usize = 0;
                assert(entries@.take(0) =~= Seq::<(String, ScyllaConfig)>::empty());
                assert(views(texts@) =~= debug_entries(entries_view(entries@.take(0))));
                while i < entries.len()
                    invariant
                        i <= entries@.len(),
                        *self == ScyllaConfig::Mapping(*entries),
                        views(texts@) == debug_entries(entries_view(entries@.take(i as int))),
                    decreases entries@.len() - i,
                {
                    proof {
                        assert(self->Mapping_0 == *entries);
                        assert(decreases_to!(*self => self->Mapping_0));
                        assert(decreases_to!(self->Mapping_0 => self->Mapping_0@));
                        assert(decreases_to!(self->Mapping_0@ => self->Mapping_0@[i as int]));
                        assert(decreases_to!(self->Mapping_0@[i as int] => self->Mapping_0@[i as int].1));
                    }
                    let mut text = debug_text_of(entries[i].0.as_str());
                    text.append(": ");
                    text.append(entries[i].1.debug_string().as_str());
                    proof {
                        let upto = entries@.take(i + 1);
                        assert(upto.drop_last() =~= entries@.take(i as int));
                        entries_view_at(upto);
                        entries_view_at(upto.drop_last());
                        let trees = entries_view(upto);
                        assert(trees.drop_last() =~= entries_view(upto.drop_last()));
                        assert(trees.last() == (entries@[i as int].0@, entries@[i as int].1@));
                        assert(debug_entries(trees) == debug_entries(trees.drop_last()).push(
                            str_debug(trees.last().0) + ": "@ + debug_text(trees.last().1),
                        ));
                    }
                    texts.push(text);
                    assert(views(texts@) =~= debug_entries(entries_view(entries@.take(i + 1))));
                    i = i + 1;
                }
                assert(entries@.take(i as int) =~= entries@);
                let mut out = "Map({".to_owned();
                push_joined(&mut out, &texts, ", ");
                out.append("})");
                out
            },
        }
    }

    /// The overlay on one line, for logs: each leaf of a map as its name, a
    /// colon and its value, the names of nested maps joined by dots, the
    /// entries of each map in ascending order of their names, and a space
    /// between each two leaves. Lists lose their structure in this form.
    /// Anything but a map gives the empty text.
    pub fn to_flat_string(&self) -> (r: String)
        ensures
            r@ == flat_text(self@),
    {
        let mut lines: Vec<String> = Vec::new();
        assert(views(lines@) =~= Seq::<Seq<char>>::empty());
        let mut out = String::new();
        match self {
            ScyllaConfig::Mapping(entries) => {
                flatten_map(entries, "", &mut lines);
                proof {
                    reveal_strlit("");
                    assert(""@ =~= Seq::<char>::empty());
                    assert(views(lines@) =~= flat_map(entries_view(entries@), Seq::empty()));
                }
                push_joined(&mut out, &lines, " ");
                assert(out@ =~= flat_text(self@));
            },
            _ => {},
        }
        out
    }
}

fn debug_list(items: &Vec<ScyllaConfig>) -> (r: Vec<String>)
    ensures
        views(r@) == debug_items(list_view(items@)),
    decreases items,
{
    let mut texts: Vec<String> = Vec::new();
    let mut i: usize = 0;
    assert(items@.take(0) =~= Seq::<ScyllaConfig>::empty());
    assert(views(texts@) =~= debug_items(list_view(items@.take(0))));
    while i < items.len()
        invariant
            i <= items@.len(),
            views(texts@) == debug_items(list_view(items@.take(i as int))),
        decreases items@.len() - i,
    {
        proof {
            assert(decreases_to!(*items => items@));
            assert(decreases_to!(items@ => items@[i as int]));
        }
        let text = items[i].debug_string();
        proof {
            let upto = items@.take(i + 1);
            assert(upto.drop_last() =~= items@.take(i as int));
            list_view_at(upto);
            list_view_at(upto.drop_last());
            let trees = list_view(upto);
            assert(trees.drop_last() =~= list_view(upto.drop_last()));
            assert(trees.last() == items@[i as int]@);
            assert(debug_items(trees) == debug_items(trees.drop_last()).push(
                debug_text(trees.last()),
            ));
        }
        texts.push(text);
        assert(views(texts@) =~= debug_items(list_view(items@.take(i + 1))));
        i = i + 1;
    }
    assert(items@.take(i as int) =~= items@);
    texts
}

fn flatten_map(entries: &Vec<(String, ScyllaConfig)>, prefix: &str, output: &mut Vec<String>)
    ensures
        views(final(output)@) == views(old(output)@) + flat_map(entries_view(entries@), prefix@),
    decreases entries,
{
    let ghost trees = entries_view(entries@);
    proof {
        entries_view_at(entries@);
    }
    let mut names: Vec<Vec<char>> = Vec::new();
    let mut k: usize = 0;
    while k < entries.len()
        invariant
            k <= entries@.len(),
            names@.len() == k,
            forall|j: int| 0 <= j < k ==> (#[trigger] names@[j])@ == entries@[j].0@,
        decreases entries@.len() - k,
    {
        names.push(chars_of(entries[k].0.as_str()));
        k = k + 1;
    }
    assert(char_views(names@) =~= names_of(trees));
    let order = sort_positions(&names);
    let ghost all = sorted_order(names_of(trees), trees.len());
    assert(order@ == all);
    let mut i: usize = 0;
    assert(order@.take(0) =~= Seq::<usize>::empty());
    assert(views(output@) =~= views(old(output)@) + flat_entries(trees, order@.take(0), prefix@));
    while i < order.len()
        invariant
            i <= order@.len(),
            order@.len() == entries@.len(),
            trees == entries_view(entries@),
            trees.len() == entries@.len(),
            forall|j: int|
                0 <= j < entries@.len() ==> (#[trigger] trees[j]) == (entries@[j].0@, entries@[j].1@),
            forall|j: int| 0 <= j < order@.len() ==> 0 <= (#[trigger] order@[j]) < entries@.len(),
            views(output@) == views(old(output)@) + flat_entries(
                trees,
                order@.take(i as int),
                prefix@,
            ),
        decreases order@.len() - i,
    {
        let at: usize = order[i];
        let entry = &entries[at];
        let ghost before = views(output@);
        let mut name = String::new();
        if prefix.unicode_len() > 0 {
            name.append(prefix);
            name.append(".");
        }
        name.append(entry.0.as_str());
        assert(name@ =~= full_name(prefix@, entry.0@));
        proof {
            assert(decreases_to!(*entries => entries@));
            assert(decreases_to!(entries@ => entries@[at as int]));
            assert(decreases_to!(entries@[at as int] => entries@[at as int].1));
            assert(entry.1@ == entry.1.view());
        }
        match &entry.1 {
            ScyllaConfig::Mapping(inner) => {
                proof {
                    assert(entry.1->Mapping_0 == *inner);
                    assert(decreases_to!(entry.1 => entry.1->Mapping_0));
                }
                flatten_map(inner, name.as_str(), output);
            },
            ScyllaConfig::String(s) => {
                name.append(":");
                name.append(s.as_str());
                output.push(name);
            },
            ScyllaConfig::Int(n) => {
                name.append(":");
                push_decimal(&mut name, *n);
                output.push(name);
            },
            ScyllaConfig::Float(f) => {
                name.append(":");
                name.append(float_text(f).unwrap().as_str());
                output.push(name);
            },
            ScyllaConfig::Bool(b) => {
                name.append(":");
                name.append(bool_str(*b));
                output.push(name);
            },
            ScyllaConfig::Null => {
                name.append(":null");
                output.push(name);
            },
            ScyllaConfig::List(items) => {
                let texts = debug_list(items);
                name.append(":[");
                push_joined(&mut name, &texts, ", ");
                name.append("]");
                output.push(name);
            },
        }
        proof {
            let upto = order@.take(i + 1);
            assert(upto.drop_last() =~= order@.take(i as int));
            assert(upto.last() == at);
            assert(flat_entries(trees, upto, prefix@) == flat_entries(
                trees,
                upto.drop_last(),
                prefix@,
            ) + flat_entry(trees[at as int], prefix@));
            assert(trees[at as int] == (entry.0@, entry.1@));
            assert(views(output@) =~= before + flat_entry(trees[at as int], prefix@));
        }
        i = i + 1;
    }
    assert(order@.take(i as int) =~= order@);
}

/// Whether no two of the names are the same.
pub open spec fn distinct(names: Seq<Seq<char>>) -> bool {
    forall|i: int, j: int| 0 <= i < j < names.len() ==> names[i] != names[j]
}

/// Whether each item of a list is well formed.
pub open spec fn items_well_formed(items: Seq<ConfigTree>) -> bool
    decreases items,
{
    if items.len() == 0 {
        true
    } else {
        items_well_formed(items.drop_last()) && well_formed(items.last())
    }
}

/// Whether the value of each entry of a map is well formed.
pub open spec fn values_well_formed(entries: Seq<(Seq<char>, ConfigTree)>) -> bool
    decreases entries,
{
    if entries.len() == 0 {
        true
    } else {
        values_well_formed(entries.drop_last()) && well_formed(entries.last().1)
    }
}

/// Whether no name occurs twice in any map of the overlay.
pub open spec fn well_formed(tree: ConfigTree) -> bool
    decreases tree,
{
    match tree {
        ConfigTree::List(items) => items_well_formed(items),
        ConfigTree::Mapping(entries) => distinct(names_of(entries)) && values_well_formed(entries),
        _ => true,
    }
}

/// A list is well formed item by item.
pub proof fn items_well_formed_at(items: Seq<ConfigTree>)
    ensures
        items_well_formed(items) <==> forall|i: int|
            0 <= i < items.len() ==> well_formed(#[trigger] items[i]),
    decreases items.len(),
{
    if items.len() > 0 {
        items_well_formed_at(items.drop_last());
        assert(items_well_formed(items) == (items_well_formed(items.drop_last()) && well_formed(
            items.last(),
        )));
        if items_well_formed(items) {
            assert forall|i: int| 0 <= i < items.len() implies well_formed(
                #[trigger] items[i],
            ) by {
                if i < items.len() - 1 {
                    assert(items[i] == items.drop_last()[i]);
                }
            }
        }
        if forall|i: int| 0 <= i < items.len() ==> well_formed(#[trigger] items[i]) {
            assert forall|i: int| 0 <= i < items.drop_last().len() implies well_formed(
                #[trigger] items.drop_last()[i],
            ) by {
                assert(items.drop_last()[i] == items[i]);
            }
            assert(well_formed(items[items.len() - 1]));
        }
    } else {
        assert(items_well_formed(items));
    }
}

/// The values of a map are well formed entry by entry.
pub proof fn values_well_formed_at(entries: Seq<(Seq<char>, ConfigTree)>)
    ensures
        values_well_formed(entries) <==> forall|i: int|
            0 <= i < entries.len() ==> well_formed((#[trigger] entries[i]).1),
    decreases entries.len(),
{
    if entries.len() > 0 {
        values_well_formed_at(entries.drop_last());
        assert(values_well_formed(entries) == (values_well_formed(entries.drop_last())
            && well_formed(entries.last().1)));
        if values_well_formed(entries) {
            assert forall|i: int| 0 <= i < entries.len() implies well_formed(
                (#[trigger] entries[i]).1,
            ) by {
                if i < entries.len() - 1 {
                    assert(entries[i] == entries.drop_last()[i]);
                }
            }
        }
        if forall|i: int| 0 <= i < entries.len() ==> well_formed((#[trigger] entries[i]).1) {
            assert forall|i: int| 0 <= i < entries.drop_last().len() implies well_formed(
                (#[trigger] entries.drop_last()[i]).1,
            ) by {
                assert(entries.drop_last()[i] == entries[i]);
            }
            assert(well_formed(entries[entries.len() - 1].1));
        }
    } else {
        assert(values_well_formed(entries));
    }
}

/// The YAML forms of the items of a list, in order.
pub open spec fn trees_of(items: Seq<ConfigTree>) -> Seq<YamlTree>
    decreases items,
{
    if items.len() == 0 {
        Seq::empty()
    } else {
        trees_of(items.drop_last()).push(tree_of(items.last()))
    }
}

/// The YAML forms of the entries of a map, in order: the name as a
/// string, and the form of the value.
pub open spec fn entry_trees(entries: Seq<(Seq<char>, ConfigTree)>) -> Seq<(YamlTree, YamlTree)>
    decreases entries,
{
    if entries.len() == 0 {
        Seq::empty()
    } else {
        entry_trees(entries.drop_last()).push(
            (YamlTree::String(entries.last().0), tree_of(entries.last().1)),
        )
    }
}

/// The YAML form of an overlay.
pub open spec fn tree_of(tree: ConfigTree) -> YamlTree
    decreases tree,
{
    match tree {
        ConfigTree::Null => YamlTree::Null,
        ConfigTree::Bool(b) => YamlTree::Bool(b),
        ConfigTree::Int(i) => YamlTree::Number(int_number(i)),
        ConfigTree::Float(f) => YamlTree::Number(number_float(f)),
        ConfigTree::String(s) => YamlTree::String(s),
        ConfigTree::List(items) => YamlTree::Sequence(trees_of(items)),
        ConfigTree::Mapping(entries) => YamlTree::Mapping(entry_trees(entries)),
    }
}

/// The overlays that the items of a YAML sequence stand for; `None` where
/// one of them stands for none.
pub open spec fn configs_of(items: Seq<YamlTree>) -> Option<Seq<ConfigTree>>
    decreases items,
{
    if items.len() == 0 {
        Some(Seq::empty())
    } else {
        match (configs_of(items.drop_last()), config_of(items.last())) {
            (Some(before), Ok(c)) => Some(before.push(c)),
            _ => None,
        }
    }
}

/// The entries that the entries of a YAML mapping stand for, or the
/// message of the first entry, in the mapping's order, that stands for
/// none: its key is no string, or its value stands for no overlay.
pub open spec fn entries_of(entries: Seq<(YamlTree, YamlTree)>) -> Result<
    Seq<(Seq<char>, ConfigTree)>,
    Seq<char>,
>
    decreases entries,
{
    if entries.len() == 0 {
        Ok(Seq::empty())
    } else {
        match entries_of(entries.drop_last()) {
            Err(message) => Err(message),
            Ok(before) => match entries.last().0 {
                YamlTree::String(name) => match config_of(entries.last().1) {
                    Ok(c) => Ok(before.push((name, c))),
                    Err(_) => Err("Error parsing value in mapping"@),
                },
                _ => Err("Invalid key type in mapping"@),
            },
        }
    }
}

/// The overlay that a YAML value stands for, or the message that says why
/// it stands for none. A number always stands for one: one that reads as a
/// 64-bit integer is that integer; any other number is a float.
pub open spec fn config_of(tree: YamlTree) -> Result<ConfigTree, Seq<char>>
    decreases tree,
{
    match tree {
        YamlTree::Null => Ok(ConfigTree::Null),
        YamlTree::Bool(b) => Ok(ConfigTree::Bool(b)),
        YamlTree::Number(n) => match number_int(n) {
            Some(i) => Ok(ConfigTree::Int(i)),
            None => Ok(ConfigTree::Float(number_float(n))),
        },
        YamlTree::String(s) => Ok(ConfigTree::String(s)),
        YamlTree::Sequence(items) => match configs_of(items) {
            Some(list) => Ok(ConfigTree::List(list)),
            None => Err("Error parsing value in sequence"@),
        },
        YamlTree::Mapping(entries) => match entries_of(entries) {
            Ok(list) => Ok(ConfigTree::Mapping(list)),
            Err(message) => Err(message),
        },
        YamlTree::Tagged => Err("Unsupported YAML type"@),
    }
}

/// Whether each item of a YAML sequence stands for an overlay.
pub open spec fn items_readable(items: Seq<YamlTree>) -> bool
    decreases items,
{
    if items.len() == 0 {
        true
    } else {
        items_readable(items.drop_last()) && readable(items.last())
    }
}

/// Whether each entry of a YAML mapping has a string for its key and a
/// value that stands for an overlay.
pub open spec fn entries_readable(entries: Seq<(YamlTree, YamlTree)>) -> bool
    decreases entries,
{
    if entries.len() == 0 {
        true
    } else {
        entries_readable(entries.drop_last()) && entries.last().0 is String && readable(
            entries.last().1,
        )
    }
}

/// Whether a YAML value holds, at any depth, neither a tagged value nor a
/// mapping key that is no string.
pub open spec fn readable(tree: YamlTree) -> bool
    decreases tree,
{
    match tree {
        YamlTree::Tagged => false,
        YamlTree::Sequence(items) => items_readable(items),
        YamlTree::Mapping(entries) => entries_readable(entries),
        _ => true,
    }
}

/// A YAML value stands for an overlay unless it holds, at some depth, a
/// tagged value or a mapping key that is no string. A number never fails.
pub proof fn config_fails_only_on_unreadable(tree: YamlTree)
    ensures
        config_of(tree) is Ok <==> readable(tree),
    decreases tree,
{
    match tree {
        YamlTree::Sequence(items) => {
            configs_fail_only_on_unreadable(items);
        },
        YamlTree::Mapping(entries) => {
            entries_fail_only_on_unreadable(entries);
        },
        _ => {},
    }
}

/// The items of a YAML sequence stand for a list unless one of them is
/// unreadable.
pub proof fn configs_fail_only_on_unreadable(items: Seq<YamlTree>)
    ensures
        configs_of(items) is Some <==> items_readable(items),
    decreases items,
{
    if items.len() > 0 {
        configs_fail_only_on_unreadable(items.drop_last());
        config_fails_only_on_unreadable(items.last());
        assert(configs_of(items) == match (configs_of(items.drop_last()), config_of(items.last())) {
            (Some(before), Ok(c)) => Some(before.push(c)),
            _ => None,
        });
        assert(items_readable(items) == (items_readable(items.drop_last()) && readable(
            items.last(),
        )));
    } else {
        assert(configs_of(items) == Some(Seq::<ConfigTree>::empty()));
        assert(items_readable(items));
    }
}

/// The entries of a YAML mapping stand for a map unless one of them is
/// unreadable.
pub proof fn entries_fail_only_on_unreadable(entries: Seq<(YamlTree, YamlTree)>)
    ensures
        entries_of(entries) is Ok <==> entries_readable(entries),
    decreases entries,
{
    if entries.len() > 0 {
        entries_fail_only_on_unreadable(entries.drop_last());
        config_fails_only_on_unreadable(entries.last().1);
        assert(entries_of(entries) == match entries_of(entries.drop_last()) {
            Err(message) => Err(message),
            Ok(before) => match entries.last().0 {
                YamlTree::String(name) => match config_of(entries.last().1) {
                    Ok(c) => Ok(before.push((name, c))),
                    Err(_) => Err("Error parsing value in mapping"@),
                },
                _ => Err("Invalid key type in mapping"@),
            },
        });
        assert(entries_readable(entries) == (entries_readable(entries.drop_last())
            && entries.last().0 is String && readable(entries.last().1)));
    } else {
        assert(entries_of(entries) == Ok::<Seq<(Seq<char>, ConfigTree)>, Seq<char>>(Seq::empty()));
        assert(entries_readable(entries));
    }
}

/// Whether a conversion gave what the model says.
pub open spec fn converts_to(r: Result<ScyllaConfig, String>, expected: Result<
    ConfigTree,
    Seq<char>,
>) -> bool {
    match r {
        Ok(config) => expected == Ok::<ConfigTree, Seq<char>>(config@),
        Err(message) => expected == Err::<ConfigTree, Seq<char>>(message@),
    }
}

impl ScyllaConfig {
    /// The overlay as a YAML value. The entries of a map stay in their
    /// order.
    pub fn to_yaml(&self) -> (r: serde_yaml::Value)
        requires
            well_formed(self@),
        ensures
            yaml_tree(r) == tree_of(self@),
            settles(self@, true, false),
        decreases self,
    {
        match self {
            ScyllaConfig::Null => yaml_null(),
            ScyllaConfig::Bool(b) => yaml_bool(*b),
            ScyllaConfig::Int(i) => yaml_int(*i),
            ScyllaConfig::Float(f) => yaml_number(number_as_float(f).unwrap()),
            ScyllaConfig::String(s) => yaml_string(s.clone()),
            ScyllaConfig::List(items) => {
                let mut out: Vec<serde_yaml::Value> = Vec::new();
                let mut i: usize = 0;
                proof {
                    list_view_at(items@);
                }
                while i < items.len()
                    invariant
                        i <= items@.len(),
                        *self == ScyllaConfig::List(*items),
                        well_formed(self@),
                        list_view(items@).len() == items@.len(),
                        forall|j: int|
                            0 <= j < items@.len() ==> (#[trigger] list_view(items@)[j])
                                == items@[j]@,
                        out@.len() == i,
                        forall|j: int| 0 <= j < i ==> yaml_tree(#[trigger] out@[j]) == tree_of(
                            items@[j]@,
                        ),
                        forall|j: int|
                            0 <= j < i ==> settles(#[trigger] list_view(items@)[j], true, false),
                    decreases items@.len() - i,
                {
                    proof {
                        assert(self->List_0 == *items);
                        assert(decreases_to!(*self => self->List_0));
                        assert(decreases_to!(self->List_0 => self->List_0@));
                        assert(decreases_to!(self->List_0@ => self->List_0@[i as int]));
                        assert(self@ == ConfigTree::List(list_view(items@)));
                        assert(well_formed(ConfigTree::List(list_view(items@))));
                        items_well_formed_at(list_view(items@));
                        assert(well_formed(list_view(items@)[i as int]));
                    }
                    out.push(items[i].to_yaml());
                    i = i + 1;
                }
                let r = yaml_sequence(out);
                proof {
                    items_settle_at(list_view(items@), true, false);
                    assert(self@ == ConfigTree::List(list_view(items@)));
                    trees_of_at(list_view(items@));
                    assert(yaml_tree(r)->Sequence_0 =~= trees_of(list_view(items@)));
                }
                r
            },
            ScyllaConfig::Mapping(entries) => {
                let mut out: Vec<(serde_yaml::Value, serde_yaml::Value)> = Vec::new();
                let mut i: usize = 0;
                proof {
                    entries_view_at(entries@);
                }
                while i < entries.len()
                    invariant
                        i <= entries@.len(),
                        *self == ScyllaConfig::Mapping(*entries),
                        well_formed(self@),
                        entries_view(entries@).len() == entries@.len(),
                        forall|j: int|
                            0 <= j < entries@.len() ==> (#[trigger] entries_view(entries@)[j]) == (
                                entries@[j].0@,
                                entries@[j].1@,
                            ),
                        out@.len() == i,
                        forall|j: int|
                            0 <= j < i ==> yaml_tree((#[trigger] out@[j]).0) == YamlTree::String(
                                entries@[j].0@,
                            ) && yaml_tree(out@[j].1) == tree_of(entries@[j].1@),
                        forall|j: int|
                            0 <= j < i ==> settles(
                                (#[trigger] entries_view(entries@)[j]).1,
                                true,
                                false,
                            ),
                    decreases entries@.len() - i,
                {
                    proof {
                        assert(self->Mapping_0 == *entries);
                        assert(decreases_to!(*self => self->Mapping_0));
                        assert(decreases_to!(self->Mapping_0 => self->Mapping_0@));
                        assert(decreases_to!(self->Mapping_0@ => self->Mapping_0@[i as int]));
                        assert(decreases_to!(self->Mapping_0@[i as int] => self->Mapping_0@[i as int].1));
                        assert(self@ == ConfigTree::Mapping(entries_view(entries@)));
                        assert(well_formed(ConfigTree::Mapping(entries_view(entries@))));
                        values_well_formed_at(entries_view(entries@));
                        assert(well_formed(entries_view(entries@)[i as int].1));
                    }
                    out.push((yaml_string(entries[i].0.clone()), entries[i].1.to_yaml()));
                    i = i + 1;
                }
                proof {
                    assert(self@ == ConfigTree::Mapping(entries_view(entries@)));
                    assert(well_formed(ConfigTree::Mapping(entries_view(entries@))));
                    let names = names_of(entries_view(entries@));
                    assert forall|a: int, b: int| 0 <= a < b < out@.len() implies yaml_tree(
                        (#[trigger] out@[a]).0,
                    ) != yaml_tree((#[trigger] out@[b]).0) by {
                        assert(names[a] != names[b]);
                    }
                }
                let r = yaml_mapping(out);
                proof {
                    values_settle_at(entries_view(entries@), true, false);
                    entry_trees_at(entries_view(entries@));
                    assert(yaml_tree(r)->Mapping_0 =~= entry_trees(entries_view(entries@)));
                }
                r
            },
        }
    }

    /// The overlay that a YAML value stands for. Fails, with a message, on
    /// a tagged value, on a mapping with a key that is no string, and on a
    /// sequence or mapping that holds such a value, and on nothing else.
    pub fn from_yaml(value: serde_yaml::Value) -> (r: Result<ScyllaConfig, String>)
        ensures
            converts_to(r, config_of(yaml_tree(value))),
            r is Ok <==> readable(yaml_tree(value)),
            r matches Ok(config) ==> well_formed(config@) && settles(config@, false, true),
        decreases yaml_tree(value),
    {
        let ghost tree = yaml_tree(value);
        proof {
            config_fails_only_on_unreadable(tree);
        }
        match open_yaml(value) {
            YamlShape::Null => Ok(ScyllaConfig::Null),
            YamlShape::Bool(b) => Ok(ScyllaConfig::Bool(b)),
            YamlShape::Number(n) => match number_as_int(&n) {
                Some(i) => Ok(ScyllaConfig::Int(i)),
                None => Ok(ScyllaConfig::Float(number_as_float(&n).unwrap())),
            },
            YamlShape::String(s) => Ok(ScyllaConfig::String(s)),
            YamlShape::Sequence(items) => {
                let ghost trees = tree->Sequence_0;
                let ghost count = items@.len();
                assert(trees.len() == count);
                let mut out: Vec<ScyllaConfig> = Vec::new();
                assert(trees.take(0) =~= Seq::<YamlTree>::empty());
                for item in it: items
                    invariant
                        tree == yaml_tree(value),
                        config_of(tree) is Ok <==> readable(tree),
                        tree == YamlTree::Sequence(trees),
                        trees.len() == it.seq().len(),
                        forall|j: int|
                            0 <= j < trees.len() ==> trees[j] == yaml_tree(#[trigger] it.seq()[j]),
                        configs_of(trees.take(it.index() as int)) == Some(list_view(out@)),
                        items_settle(list_view(out@), false, true),
                        items_well_formed(list_view(out@)),
                {
                    let ghost at = it.index() as int;
                    proof {
                        assert(trees[at] == yaml_tree(item));
                        assert(decreases_to!(tree => tree->Sequence_0));
                        assert(decreases_to!(tree->Sequence_0 => tree->Sequence_0[at]));
                        assert(trees.take(at + 1).drop_last() =~= trees.take(at));
                        assert(trees.take(at + 1).last() == trees[at]);
                    }
                    match ScyllaConfig::from_yaml(item) {
                        Ok(config) => {
                            proof {
                                let grown = out@.push(config);
                                assert(grown.drop_last() =~= out@);
                                assert(list_view(grown) == list_view(grown.drop_last()).push(
                                    grown.last().view(),
                                ));
                                assert(list_view(grown).drop_last() =~= list_view(out@));
                                assert(items_settle(list_view(grown), false, true));
                                assert(items_well_formed(list_view(grown)));
                            }
                            out.push(config);
                        },
                        Err(_) => {
                            proof {
                                configs_fail_later(trees, at + 1);
                            }
                            return Err("Error parsing value in sequence".to_owned());
                        },
                    }
                }
                assert(trees.take(trees.len() as int) =~= trees);
                Ok(ScyllaConfig::List(out))
            },
            YamlShape::Mapping(entries) => {
                let ghost trees = tree->Mapping_0;
                assert(trees.len() == entries@.len());
                let mut out: Vec<(String, ScyllaConfig)> = Vec::new();
                assert(trees.take(0) =~= Seq::<(YamlTree, YamlTree)>::empty());
                for entry in it: entries
                    invariant
                        tree == yaml_tree(value),
                        config_of(tree) is Ok <==> readable(tree),
                        tree == YamlTree::Mapping(trees),
                        trees.len() == it.seq().len(),
                        forall|j: int|
                            0 <= j < trees.len() ==> trees[j] == (
                                yaml_tree((#[trigger] it.seq()[j]).0),
                                yaml_tree(it.seq()[j].1),
                            ),
                        entries_of(trees.take(it.index() as int)) == Ok::<
                            Seq<(Seq<char>, ConfigTree)>,
                            Seq<char>,
                        >(entries_view(out@)),
                        values_settle(entries_view(out@), false, true),
                        values_well_formed(entries_view(out@)),
                        out@.len() == it.index(),
                        forall|j: int|
                            0 <= j < out@.len() ==> trees[j].0 == YamlTree::String(
                                (#[trigger] out@[j]).0@,
                            ),
                        forall|a: int, b: int|
                            0 <= a < b < trees.len() && (#[trigger] trees[a]).0 is String
                                ==> trees[a].0 != (#[trigger] trees[b]).0,
                {
                    let ghost at = it.index() as int;
                    proof {
                        assert(trees[at] == (yaml_tree(entry.0), yaml_tree(entry.1)));
                        assert(decreases_to!(tree => tree->Mapping_0));
                        assert(decreases_to!(tree->Mapping_0 => tree->Mapping_0[at]));
                        assert(decreases_to!(tree->Mapping_0[at] => tree->Mapping_0[at].0));
                        assert(decreases_to!(tree->Mapping_0[at] => tree->Mapping_0[at].1));
                        assert(trees.take(at + 1).drop_last() =~= trees.take(at));
                        assert(trees.take(at + 1).last() == trees[at]);
                    }
                    let (key, value) = entry;
                    match open_yaml(key) {
                        YamlShape::String(name) => match ScyllaConfig::from_yaml(value) {
                            Ok(config) => {
                                proof {
                                    let grown = out@.push((name, config));
                                    assert(grown.drop_last() =~= out@);
                                    assert(entries_view(grown) == entries_view(
                                        grown.drop_last(),
                                    ).push((grown.last().0@, grown.last().1.view())));
                                    assert(entries_view(grown).drop_last() =~= entries_view(out@));
                                    assert(values_settle(entries_view(grown), false, true));
                                    assert(values_well_formed(entries_view(grown)));
                                }
                                out.push((name, config));
                            },
                            Err(_) => {
                                proof {
                                    entries_fail_later(trees, at + 1);
                                }
                                return Err("Error parsing value in mapping".to_owned());
                            },
                        },
                        _ => {
                            proof {
                                entries_fail_later(trees, at + 1);
                            }
                            return Err("Invalid key type in mapping".to_owned());
                        },
                    }
                }
                assert(trees.take(trees.len() as int) =~= trees);
                proof {
                    entries_view_at(out@);
                    let names = names_of(entries_view(out@));
                    assert forall|a: int, b: int| 0 <= a < b < names.len() implies names[a]
                        != names[b] by {
                        assert(trees[a].0 == YamlTree::String(out@[a].0@));
                        assert(trees[b].0 == YamlTree::String(out@[b].0@));
                        assert(trees[a].0 != trees[b].0);
                    }
                }
                Ok(ScyllaConfig::Mapping(out))
            },
            YamlShape::Tagged => Err("Unsupported YAML type".to_owned()),
        }
    }
}

/// The YAML form of a list goes item by item.
pub proof fn trees_of_at(items: Seq<ConfigTree>)
    ensures
        trees_of(items).len() == items.len(),
        forall|i: int| 0 <= i < items.len() ==> (#[trigger] trees_of(items)[i]) == tree_of(items[i]),
    decreases items.len(),
{
    if items.len() > 0 {
        trees_of_at(items.drop_last());
        assert(trees_of(items) == trees_of(items.drop_last()).push(tree_of(items.last())));
    } else {
        assert(trees_of(items) == Seq::<YamlTree>::empty());
    }
}

/// The YAML form of a map goes entry by entry.
pub proof fn entry_trees_at(entries: Seq<(Seq<char>, ConfigTree)>)
    ensures
        entry_trees(entries).len() == entries.len(),
        forall|i: int|
            0 <= i < entries.len() ==> (#[trigger] entry_trees(entries)[i]) == (
                YamlTree::String(entries[i].0),
                tree_of(entries[i].1),
            ),
    decreases entries.len(),
{
    if entries.len() > 0 {
        entry_trees_at(entries.drop_last());
        assert(entry_trees(entries) == entry_trees(entries.drop_last()).push(
            (YamlTree::String(entries.last().0), tree_of(entries.last().1)),
        ));
    } else {
        assert(entry_trees(entries) == Seq::<(YamlTree, YamlTree)>::empty());
    }
}

/// Once the first `n` items of a sequence stand for no list, the whole
/// sequence stands for none.
proof fn configs_fail_later(items: Seq<YamlTree>, n: int)
    requires
        0 <= n <= items.len(),
        configs_of(items.take(n)) is None,
    ensures
        configs_of(items) is None,
    decreases items.len() - n,
{
    if n < items.len() {
        assert(items.take(n + 1).drop_last() =~= items.take(n));
        assert(configs_of(items.take(n + 1)) is None);
        configs_fail_later(items, n + 1);
    } else {
        assert(items.take(n) =~= items);
    }
}

/// The message of the first `n` entries of a mapping is the message of
/// the whole mapping.
proof fn entries_fail_later(entries: Seq<(YamlTree, YamlTree)>, n: int)
    requires
        0 <= n <= entries.len(),
        entries_of(entries.take(n)) is Err,
    ensures
        entries_of(entries) == entries_of(entries.take(n)),
    decreases entries.len() - n,
{
    if n < entries.len() {
        assert(entries.take(n + 1).drop_last() =~= entries.take(n));
        assert(entries_of(entries.take(n + 1)) == entries_of(entries.take(n)));
        entries_fail_later(entries, n + 1);
    } else {
        assert(entries.take(n) =~= entries);
    }
}

/// Whether the chosen numbers of each item of a list read back as written.
pub open spec fn items_settle(items: Seq<ConfigTree>, ints: bool, floats: bool) -> bool
    decreases items,
{
    if items.len() == 0 {
        true
    } else {
        items_settle(items.drop_last(), ints, floats) && settles(items.last(), ints, floats)
    }
}

/// Whether the chosen numbers of the value of each entry read back as
/// written.
pub open spec fn values_settle(
    entries: Seq<(Seq<char>, ConfigTree)>,
    ints: bool,
    floats: bool,
) -> bool
    decreases entries,
{
    if entries.len() == 0 {
        true
    } else {
        values_settle(entries.drop_last(), ints, floats) && settles(
            entries.last().1,
            ints,
            floats,
        )
    }
}

/// Whether the chosen numbers of an overlay read back from YAML as they
/// were written. An integer does where its number reads as that 64-bit
/// integer. A float does where its number holds a float: one that reads as
/// no 64-bit integer, and as itself when read as a float.
pub open spec fn settles(tree: ConfigTree, ints: bool, floats: bool) -> bool
    decreases tree,
{
    match tree {
        ConfigTree::Int(i) => ints ==> number_int(int_number(i)) == Some(i),
        ConfigTree::Float(f) => floats ==> number_int(f) is None && number_float(f) == f,
        ConfigTree::List(items) => items_settle(items, ints, floats),
        ConfigTree::Mapping(entries) => values_settle(entries, ints, floats),
        _ => true,
    }
}

/// Whether all the numbers of an overlay read back from YAML as they were
/// written.
pub open spec fn numbers_settle(tree: ConfigTree) -> bool {
    settles(tree, true, false) && settles(tree, false, true)
}

/// The numbers of a list settle item by item.
pub proof fn items_settle_at(items: Seq<ConfigTree>, ints: bool, floats: bool)
    ensures
        items_settle(items, ints, floats) <==> forall|i: int|
            0 <= i < items.len() ==> settles(#[trigger] items[i], ints, floats),
    decreases items.len(),
{
    if items.len() > 0 {
        items_settle_at(items.drop_last(), ints, floats);
        assert(items_settle(items, ints, floats) == (items_settle(
            items.drop_last(),
            ints,
            floats,
        ) && settles(items.last(), ints, floats)));
        if items_settle(items, ints, floats) {
            assert forall|i: int| 0 <= i < items.len() implies settles(
                #[trigger] items[i],
                ints,
                floats,
            ) by {
                if i < items.len() - 1 {
                    assert(items[i] == items.drop_last()[i]);
                }
            }
        }
        if forall|i: int| 0 <= i < items.len() ==> settles(#[trigger] items[i], ints, floats) {
            assert forall|i: int| 0 <= i < items.drop_last().len() implies settles(
                #[trigger] items.drop_last()[i],
                ints,
                floats,
            ) by {
                assert(items.drop_last()[i] == items[i]);
            }
            assert(settles(items[items.len() - 1], ints, floats));
        }
    } else {
        assert(items_settle(items, ints, floats));
    }
}

/// The numbers of a map settle entry by entry.
pub proof fn values_settle_at(entries: Seq<(Seq<char>, ConfigTree)>, ints: bool, floats: bool)
    ensures
        values_settle(entries, ints, floats) <==> forall|i: int|
            0 <= i < entries.len() ==> settles((#[trigger] entries[i]).1, ints, floats),
    decreases entries.len(),
{
    if entries.len() > 0 {
        values_settle_at(entries.drop_last(), ints, floats);
        assert(values_settle(entries, ints, floats) == (values_settle(
            entries.drop_last(),
            ints,
            floats,
        ) && settles(entries.last().1, ints, floats)));
        if values_settle(entries, ints, floats) {
            assert forall|i: int| 0 <= i < entries.len() implies settles(
                (#[trigger] entries[i]).1,
                ints,
                floats,
            ) by {
                if i < entries.len() - 1 {
                    assert(entries[i] == entries.drop_last()[i]);
                }
            }
        }
        if forall|i: int| 0 <= i < entries.len() ==> settles((#[trigger] entries[i]).1, ints, floats) {
            assert forall|i: int| 0 <= i < entries.drop_last().len() implies settles(
                (#[trigger] entries.drop_last()[i]).1,
                ints,
                floats,
            ) by {
                assert(entries.drop_last()[i] == entries[i]);
            }
            assert(settles(entries[entries.len() - 1].1, ints, floats));
        }
    } else {
        assert(values_settle(entries, ints, floats));
    }
}

/// An overlay that goes out as YAML and comes back is the same overlay,
/// provided its numbers read back as they were written. Where a float's
/// number holds an integer, the overlay that comes back differs in that
/// leaf.
pub proof fn yaml_round_trip(tree: ConfigTree)
    requires
        numbers_settle(tree),
    ensures
        config_of(tree_of(tree)) == Ok::<ConfigTree, Seq<char>>(tree),
    decreases tree,
{
    match tree {
        ConfigTree::List(items) => {
            items_round_trip(items);
        },
        ConfigTree::Mapping(entries) => {
            entries_round_trip(entries);
        },
        _ => {},
    }
}

/// The items of a list come back from YAML as they went out.
pub proof fn items_round_trip(items: Seq<ConfigTree>)
    requires
        items_settle(items, true, false),
        items_settle(items, false, true),
    ensures
        configs_of(trees_of(items)) == Some(items),
    decreases items,
{
    if items.len() > 0 {
        assert(items_settle(items, true, false) == (items_settle(items.drop_last(), true, false)
            && settles(items.last(), true, false)));
        assert(items_settle(items, false, true) == (items_settle(items.drop_last(), false, true)
            && settles(items.last(), false, true)));
        items_round_trip(items.drop_last());
        yaml_round_trip(items.last());
        let out = trees_of(items);
        assert(out == trees_of(items.drop_last()).push(tree_of(items.last())));
        assert(out.drop_last() =~= trees_of(items.drop_last()));
        assert(out.last() == tree_of(items.last()));
        assert(configs_of(out) == match (configs_of(out.drop_last()), config_of(out.last())) {
            (Some(before), Ok(c)) => Some(before.push(c)),
            _ => None,
        });
        assert(items.drop_last().push(items.last()) =~= items);
    } else {
        assert(trees_of(items) == Seq::<YamlTree>::empty());
        assert(configs_of(trees_of(items)) == Some(Seq::<ConfigTree>::empty()));
        assert(items =~= Seq::<ConfigTree>::empty());
    }
}

/// The entries of a map come back from YAML as they went out.
pub proof fn entries_round_trip(entries: Seq<(Seq<char>, ConfigTree)>)
    requires
        values_settle(entries, true, false),
        values_settle(entries, false, true),
    ensures
        entries_of(entry_trees(entries)) == Ok::<Seq<(Seq<char>, ConfigTree)>, Seq<char>>(entries),
    decreases entries,
{
    if entries.len() > 0 {
        assert(values_settle(entries, true, false) == (values_settle(
            entries.drop_last(),
            true,
            false,
        ) && settles(entries.last().1, true, false)));
        assert(values_settle(entries, false, true) == (values_settle(
            entries.drop_last(),
            false,
            true,
        ) && settles(entries.last().1, false, true)));
        entries_round_trip(entries.drop_last());
        yaml_round_trip(entries.last().1);
        let out = entry_trees(entries);
        assert(out == entry_trees(entries.drop_last()).push(
            (YamlTree::String(entries.last().0), tree_of(entries.last().1)),
        ));
        assert(out.drop_last() =~= entry_trees(entries.drop_last()));
        assert(out.last() == (YamlTree::String(entries.last().0), tree_of(entries.last().1)));
        assert(entries_of(out) == match entries_of(out.drop_last()) {
            Err(message) => Err(message),
            Ok(before) => match out.last().0 {
                YamlTree::String(name) => match config_of(out.last().1) {
                    Ok(c) => Ok(before.push((name, c))),
                    Err(_) => Err("Error parsing value in mapping"@),
                },
                _ => Err("Invalid key type in mapping"@),
            },
        });
        assert(entries.drop_last().push(entries.last()) =~= entries);
    } else {
        assert(entry_trees(entries) == Seq::<(YamlTree, YamlTree)>::empty());
        assert(entries_of(entry_trees(entries)) == Ok::<Seq<(Seq<char>, ConfigTree)>, Seq<char>>(
            Seq::empty(),
        ));
        assert(entries =~= Seq::<(Seq<char>, ConfigTree)>::empty());
    }
}

impl ScyllaConfig {
    /// Whether no name occurs twice in any map of the overlay.
    pub fn is_well_formed(&self) -> (r: bool)
        ensures
            r == well_formed(self@),
        decreases self,
    {
        match self {
            ScyllaConfig::List(items) => {
                proof {
                    list_view_at(items@);
                    items_well_formed_at(list_view(items@));
                }
                let mut i: usize = 0;
                while i < items.len()
                    invariant
                        i <= items@.len(),
                        *self == ScyllaConfig::List(*items),
                        list_view(items@).len() == items@.len(),
                        forall|j: int|
                            0 <= j < items@.len() ==> (#[trigger] list_view(items@)[j])
                                == items@[j]@,
                        forall|j: int| 0 <= j < i ==> well_formed(#[trigger] list_view(items@)[j]),
                        items_well_formed(list_view(items@)) <==> forall|j: int|
                            0 <= j < items@.len() ==> well_formed(#[trigger] list_view(items@)[j]),
                    decreases items@.len() - i,
                {
                    proof {
                        assert(self->List_0 == *items);
                        assert(decreases_to!(*self => self->List_0));
                        assert(decreases_to!(self->List_0 => self->List_0@));
                        assert(decreases_to!(self->List_0@ => self->List_0@[i as int]));
                    }
                    if !items[i].is_well_formed() {
                        assert(!well_formed(list_view(items@)[i as int]));
                        return false;
                    }
                    i = i + 1;
                }
                true
            },
            ScyllaConfig::Mapping(entries) => {
                proof {
                    entries_view_at(entries@);
                    values_well_formed_at(entries_view(entries@));
                }
                let ghost trees = entries_view(entries@);
                let mut i: usize = 0;
                while i < entries.len()
                    invariant
                        i <= entries@.len(),
                        *self == ScyllaConfig::Mapping(*entries),
                        trees == entries_view(entries@),
                        trees.len() == entries@.len(),
                        forall|j: int|
                            0 <= j < entries@.len() ==> (#[trigger] trees[j]) == (
                                entries@[j].0@,
                                entries@[j].1@,
                            ),
                        forall|j: int| 0 <= j < i ==> well_formed((#[trigger] trees[j]).1),
                        forall|a: int, b: int|
                            0 <= a < b < entries@.len() && a < i ==> (#[trigger] trees[a]).0 != (
                            #[trigger] trees[b]).0,
                        values_well_formed(trees) <==> forall|j: int|
                            0 <= j < trees.len() ==> well_formed((#[trigger] trees[j]).1),
                    decreases entries@.len() - i,
                {
                    proof {
                        assert(self->Mapping_0 == *entries);
                        assert(decreases_to!(*self => self->Mapping_0));
                        assert(decreases_to!(self->Mapping_0 => self->Mapping_0@));
                        assert(decreases_to!(self->Mapping_0@ => self->Mapping_0@[i as int]));
                        assert(decreases_to!(self->Mapping_0@[i as int] => self->Mapping_0@[i as int].1));
                    }
                    if !entries[i].1.is_well_formed() {
                        assert(!well_formed(trees[i as int].1));
                        return false;
                    }
                    let mut k: usize = i + 1;
                    while k < entries.len()
                        invariant
                            i < k <= entries@.len(),
                            *self == ScyllaConfig::Mapping(*entries),
                            trees == entries_view(entries@),
                            trees.len() == entries@.len(),
                            forall|j: int|
                                0 <= j < entries@.len() ==> (#[trigger] trees[j]) == (
                                    entries@[j].0@,
                                    entries@[j].1@,
                                ),
                            forall|b: int| i < b < k ==> trees[i as int].0 != (#[trigger] trees[b]).0,
                        decreases entries@.len() - k,
                    {
                        if entries[i].0 == entries[k].0 {
                            proof {
                                let names = names_of(trees);
                                assert(names[i as int] == names[k as int]);
                                assert(!distinct(names));
                            }
                            return false;
                        }
                        k = k + 1;
                    }
                    i = i + 1;
                }
                proof {
                    let names = names_of(trees);
                    assert forall|a: int, b: int| 0 <= a < b < names.len() implies names[a]
                        != names[b] by {
                        assert(trees[a].0 != trees[b].0);
                    }
                }
                true
            },
            _ => true,
        }
    }

    /// The place of the last value of the overlay, to change it there: the
    /// last item of a list, the value of the last entry of a map; nothing
    /// for anything else, or where the list or the map is empty.
    pub fn output_mut(&mut self) -> (r: Option<&mut ScyllaConfig>)
        ensures
            match *old(self) {
                ScyllaConfig::List(items) => if items@.len() > 0 {
                    &&& r is Some
                    &&& *r.unwrap() == items@.last()
                    &&& *final(self) is List
                    &&& final(self)->List_0@ == items@.update(
                        items@.len() - 1,
                        *final(r.unwrap()),
                    )
                } else {
                    r is None && *final(self) == *old(self)
                },
                ScyllaConfig::Mapping(entries) => if entries@.len() > 0 {
                    &&& r is Some
                    &&& *r.unwrap() == entries@.last().1
                    &&& *final(self) is Mapping
                    &&& final(self)->Mapping_0@ == entries@.update(
                        entries@.len() - 1,
                        (entries@.last().0, *final(r.unwrap())),
                    )
                } else {
                    r is None && *final(self) == *old(self)
                },
                _ => r is None && *final(self) == *old(self),
            },
    {
        match self {
            ScyllaConfig::List(list) => {
                let n: usize = list.len();
                if n > 0 {
                    Some(&mut list[n - 1])
                } else {
                    None
                }
            },
            ScyllaConfig::Mapping(entries) => {
                let n: usize = entries.len();
                if n > 0 {
                    Some(&mut entries[n - 1].1)
                } else {
                    None
                }
            },
            _ => None,
        }
    }

    /// Takes a value out of the overlay: the last item of a list, which
    /// leaves the list; a copy of the value of the first entry of a map,
    /// which stays as it is; nothing from anything else.
    pub fn take_output(&mut self) -> (r: Option<ScyllaConfig>)
        ensures
            match old(self)@ {
                ConfigTree::List(items) => if items.len() > 0 {
                    &&& r is Some
                    &&& r->0@ == items.last()
                    &&& final(self)@ == ConfigTree::List(items.drop_last())
                } else {
                    r is None && final(self)@ == old(self)@
                },
                ConfigTree::Mapping(entries) => {
                    &&& final(self)@ == old(self)@
                    &&& if entries.len() > 0 {
                        r is Some && r->0@ == entries[0].1
                    } else {
                        r is None
                    }
                },
                _ => r is None && final(self)@ == old(self)@,
            },
    {
        proof {
            assert(old(self)@ == old(self).view());
        }
        match self {
            ScyllaConfig::List(list) => {
                proof {
                    list_view_at(list@);
                }
                let ghost before = list@;
                let taken = list.pop();
                proof {
                    list_view_at(list@);
                    if before.len() > 0 {
                        assert(list_view(list@) =~= list_view(before).drop_last());
                    }
                }
                taken
            },
            ScyllaConfig::Mapping(entries) => {
                proof {
                    entries_view_at(entries@);
                }
                if entries.len() > 0 {
                    Some(entries[0].1.duplicate())
                } else {
                    None
                }
            },
            _ => None,
        }
    }
}

/// Whether the names of the entries ascend strictly.
pub open spec fn names_ascend(list: Seq<(Seq<char>, ConfigTree)>) -> bool {
    forall|i: int, j: int|
        0 <= i < j < list.len() ==> text_less((#[trigger] list[i]).0, (#[trigger] list[j]).0)
}

/// Two lists of entries whose names ascend strictly, and which hold the
/// same entries, are the same list.
pub proof fn ascending_lists_agree(
    a: Seq<(Seq<char>, ConfigTree)>,
    b: Seq<(Seq<char>, ConfigTree)>,
)
    requires
        names_ascend(a),
        names_ascend(b),
        forall|x: (Seq<char>, ConfigTree)| a.contains(x) <==> b.contains(x),
    ensures
        a == b,
    decreases a.len(),
{
    if a.len() == 0 {
        if b.len() > 0 {
            assert(b.contains(b[0]));
            assert(a.contains(b[0]));
        }
        assert(a =~= b);
    } else {
        let la = a.last();
        assert(a[a.len() - 1] == la);
        assert(a.contains(la));
        assert(b.contains(la));
        let j = choose|j: int| 0 <= j < b.len() && b[j] == la;
        let lb = b.last();
        assert(b[b.len() - 1] == lb);
        assert(b.contains(lb));
        assert(a.contains(lb));
        let i = choose|i: int| 0 <= i < a.len() && a[i] == lb;
        if j < b.len() - 1 {
            assert(text_less(b[j].0, b[b.len() - 1].0));
            if i < a.len() - 1 {
                assert(text_less(a[i].0, a[a.len() - 1].0));
            }
            text_less_is_one_way(la.0, lb.0);
            assert(false);
        }
        let a2 = a.drop_last();
        let b2 = b.drop_last();
        assert forall|x: (Seq<char>, ConfigTree)| a2.contains(x) <==> b2.contains(x) by {
            if a2.contains(x) {
                let k = choose|k: int| 0 <= k < a2.len() && a2[k] == x;
                assert(a[k] == x);
                assert(text_less(a[k].0, a[a.len() - 1].0));
                assert(a.contains(x));
                let m = choose|m: int| 0 <= m < b.len() && b[m] == x;
                if m == b.len() - 1 {
                    text_less_is_one_way(la.0, la.0);
                } else {
                    assert(b2[m] == x);
                }
            }
            if b2.contains(x) {
                let k = choose|k: int| 0 <= k < b2.len() && b2[k] == x;
                assert(b[k] == x);
                assert(text_less(b[k].0, b[b.len() - 1].0));
                assert(b.contains(x));
                let m = choose|m: int| 0 <= m < a.len() && a[m] == x;
                if m == a.len() - 1 {
                    text_less_is_one_way(la.0, la.0);
                } else {
                    assert(a2[m] == x);
                }
            }
        }
        assert forall|p: int, q: int| 0 <= p < q < a2.len() implies text_less(
            (#[trigger] a2[p]).0,
            (#[trigger] a2[q]).0,
        ) by {
            assert(a2[p] == a[p] && a2[q] == a[q]);
        }
        assert forall|p: int, q: int| 0 <= p < q < b2.len() implies text_less(
            (#[trigger] b2[p]).0,
            (#[trigger] b2[q]).0,
        ) by {
            assert(b2[p] == b[p] && b2[q] == b[q]);
        }
        ascending_lists_agree(a2, b2);
        assert(a =~= a2.push(la));
        assert(b =~= b2.push(la));
    }
}

/// The flat lines of the entries at two lists of positions are the same
/// where the positions pick the same entries, one by one.
pub proof fn same_picks_same_lines(
    e1: Seq<(Seq<char>, ConfigTree)>,
    o1: Seq<usize>,
    e2: Seq<(Seq<char>, ConfigTree)>,
    o2: Seq<usize>,
    prefix: Seq<char>,
)
    requires
        o1.len() == o2.len(),
        forall|i: int|
            0 <= i < o1.len() ==> 0 <= (#[trigger] o1[i]) < e1.len() && 0 <= o2[i] < e2.len()
                && e1[o1[i] as int] == e2[o2[i] as int],
    ensures
        flat_entries(e1, o1, prefix) == flat_entries(e2, o2, prefix),
    decreases o1.len(),
{
    if o1.len() > 0 {
        assert forall|i: int| 0 <= i < o1.drop_last().len() implies 0 <= (
        #[trigger] o1.drop_last()[i]) < e1.len() && 0 <= o2.drop_last()[i] < e2.len()
            && e1[o1.drop_last()[i] as int] == e2[o2.drop_last()[i] as int] by {
            assert(o1.drop_last()[i] == o1[i]);
            assert(o2.drop_last()[i] == o2[i]);
        }
        same_picks_same_lines(e1, o1.drop_last(), e2, o2.drop_last(), prefix);
        assert(0 <= o1[o1.len() - 1] < e1.len());
        assert(flat_entries(e1, o1, prefix) == flat_entries(e1, o1.drop_last(), prefix)
            + flat_entry(e1[o1.last() as int], prefix));
        assert(flat_entries(e2, o2, prefix) == flat_entries(e2, o2.drop_last(), prefix)
            + flat_entry(e2[o2.last() as int], prefix));
    } else {
        assert(flat_entries(e1, o1, prefix) == Seq::<Seq<char>>::empty());
        assert(flat_entries(e2, o2, prefix) == Seq::<Seq<char>>::empty());
    }
}

/// The entries of a map in ascending order of their names: a list whose
/// names ascend strictly and which holds the same entries, where no name
/// occurs twice.
proof fn sorted_entries_ascend(entries: Seq<(Seq<char>, ConfigTree)>) -> (list: Seq<
    (Seq<char>, ConfigTree),
>)
    requires
        distinct(names_of(entries)),
        entries.len() <= usize::MAX,
    ensures
        names_ascend(list),
        forall|x: (Seq<char>, ConfigTree)| list.contains(x) <==> entries.contains(x),
        list.len() == sorted_order(names_of(entries), entries.len()).len(),
        forall|i: int|
            0 <= i < list.len() ==> 0 <= sorted_order(names_of(entries), entries.len())[i]
                < entries.len() && (#[trigger] list[i]) == entries[sorted_order(
                names_of(entries),
                entries.len(),
            )[i] as int],
{
    let names = names_of(entries);
    let order = sorted_order(names, entries.len());
    sorted_order_is_sorted(names, entries.len());
    assert forall|i: int| 0 <= i < order.len() implies 0 <= (#[trigger] order[i])
        < entries.len() by {
        assert(order.contains(order[i]));
    }
    let list = Seq::new(order.len(), |i: int| entries[order[i] as int]);
    assert forall|i: int, j: int| 0 <= i < j < list.len() implies text_less(
        (#[trigger] list[i]).0,
        (#[trigger] list[j]).0,
    ) by {
        let p = order[i] as int;
        let q = order[j] as int;
        assert(p != q);
        assert(names[p] == entries[p].0 && names[q] == entries[q].0);
        if p < q {
            assert(names[p] != names[q]);
        } else {
            assert(names[q] != names[p]);
        }
        assert(text_le(names[order[i] as int], names[order[j] as int]));
        text_order_is_total(names[p], names[q]);
    }
    assert forall|x: (Seq<char>, ConfigTree)| list.contains(x) <==> entries.contains(x) by {
        if list.contains(x) {
            let i = choose|i: int| 0 <= i < list.len() && list[i] == x;
            assert(entries[order[i] as int] == x);
        }
        if entries.contains(x) {
            let k = choose|k: int| 0 <= k < entries.len() && entries[k] == x;
            assert(order.contains(k as usize));
            let i = choose|i: int| 0 <= i < order.len() && order[i] == k as usize;
            assert(list[i] == x);
        }
    }
    list
}

/// The flat form does not depend on the order in which a map holds its
/// entries: two maps that hold the same entries, no name twice, have the
/// same flat lines, and so the same flat text.
pub proof fn flat_text_ignores_order(
    e1: Seq<(Seq<char>, ConfigTree)>,
    e2: Seq<(Seq<char>, ConfigTree)>,
    prefix: Seq<char>,
)
    requires
        distinct(names_of(e1)),
        distinct(names_of(e2)),
        e1.len() <= usize::MAX,
        e2.len() <= usize::MAX,
        forall|x: (Seq<char>, ConfigTree)| e1.contains(x) <==> e2.contains(x),
    ensures
        flat_map(e1, prefix) == flat_map(e2, prefix),
        flat_text(ConfigTree::Mapping(e1)) == flat_text(ConfigTree::Mapping(e2)),
{
    let s1 = sorted_entries_ascend(e1);
    let s2 = sorted_entries_ascend(e2);
    ascending_lists_agree(s1, s2);
    let o1 = sorted_order(names_of(e1), e1.len());
    let o2 = sorted_order(names_of(e2), e2.len());
    assert forall|i: int| 0 <= i < o1.len() implies 0 <= (#[trigger] o1[i]) < e1.len() && 0
        <= o2[i] < e2.len() && e1[o1[i] as int] == e2[o2[i] as int] by {
        assert(s1[i] == e1[o1[i] as int]);
        assert(s2[i] == e2[o2[i] as int]);
    }
    same_picks_same_lines(e1, o1, e2, o2, prefix);
    same_picks_same_lines(e1, o1, e2, o2, Seq::empty());
}

} // verus!

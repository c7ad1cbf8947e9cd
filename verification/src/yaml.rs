//! What the library takes on trust from `serde_yaml` and from the
//! formatting of the standard library: the shape of a YAML value, the
//! reading of its numbers, and the text of floats and quoted strings.
//! Nothing here is proved; each contract says what the called code does.

use vstd::prelude::*;

verus! {

/// `serde_yaml::Number`, carried through as it is.
#[verifier::external_type_specification]
#[verifier::external_body]
pub struct ExNumber(serde_yaml::Number);

/// `serde_yaml::Value`, carried through as it is.
#[verifier::external_type_specification]
#[verifier::external_body]
pub struct ExValue(serde_yaml::Value);

/// What a YAML value holds. A tagged value stands as `Tagged`, without
/// what it tags.
pub ghost enum YamlTree {
    Null,
    Bool(bool),
    Number(serde_yaml::Number),
    String(Seq<char>),
    Sequence(Seq<YamlTree>),
    Mapping(Seq<(YamlTree, YamlTree)>),
    Tagged,
}

/// A YAML value, opened by one level.
pub enum YamlShape {
    Null,
    Bool(bool),
    Number(serde_yaml::Number),
    String(String),
    Sequence(Vec<serde_yaml::Value>),
    Mapping(Vec<(serde_yaml::Value, serde_yaml::Value)>),
    Tagged,
}

/// What a `serde_yaml::Value` holds: its variant, with the items of a
/// sequence and the entries of a mapping in their order.
pub uninterp spec fn yaml_tree(value: serde_yaml::Value) -> YamlTree;

/// What `Number::as_i64` returns for a number.
pub uninterp spec fn number_int(n: serde_yaml::Number) -> Option<i64>;

/// The number that `Number::from` makes of the float that `Number::as_f64`
/// returns for a number.
pub uninterp spec fn number_float(n: serde_yaml::Number) -> serde_yaml::Number;

/// The number that `Number::from` makes of a 64-bit integer.
pub uninterp spec fn int_number(i: i64) -> serde_yaml::Number;

/// The text that the standard library's `Display` gives for the float
/// that `Number::as_f64` returns for a number.
pub uninterp spec fn float_shown(n: serde_yaml::Number) -> Seq<char>;

/// The text that the standard library's `Debug` gives for the float that
/// `Number::as_f64` returns for a number.
pub uninterp spec fn float_debug(n: serde_yaml::Number) -> Seq<char>;

/// The text that the standard library's `Debug` gives for a string: the
/// string in double quotes, with escapes.
pub uninterp spec fn str_debug(s: Seq<char>) -> Seq<char>;

/// What a shape holds, one level deep.
pub open spec fn shape_tree(shape: YamlShape) -> YamlTree {
    match shape {
        YamlShape::Null => YamlTree::Null,
        YamlShape::Bool(b) => YamlTree::Bool(b),
        YamlShape::Number(n) => YamlTree::Number(n),
        YamlShape::String(s) => YamlTree::String(s@),
        YamlShape::Sequence(items) => YamlTree::Sequence(
            Seq::new(items@.len(), |i: int| yaml_tree(items@[i])),
        ),
        YamlShape::Mapping(entries) => YamlTree::Mapping(
            Seq::new(entries@.len(), |i: int| (yaml_tree(entries@[i].0), yaml_tree(entries@[i].1))),
        ),
        YamlShape::Tagged => YamlTree::Tagged,
    }
}

/// Whether no two entries of a shape that is a mapping have the same string
/// for a key.
pub open spec fn unique_keys(shape: YamlShape) -> bool {
    match shape {
        YamlShape::Mapping(entries) => forall|i: int, j: int|
            0 <= i < j < entries@.len() && yaml_tree((#[trigger] entries@[i]).0) is String
                ==> yaml_tree(entries@[i].0) != yaml_tree((#[trigger] entries@[j]).0),
        _ => true,
    }
}

/// Whether the keys of the entries are strings, no two of them the same.
pub open spec fn distinct_names(entries: Seq<(serde_yaml::Value, serde_yaml::Value)>) -> bool {
    &&& forall|i: int| 0 <= i < entries.len() ==> yaml_tree((#[trigger] entries[i]).0) is String
    &&& forall|i: int, j: int|
        0 <= i < j < entries.len() ==> yaml_tree((#[trigger] entries[i]).0) != yaml_tree(
            (#[trigger] entries[j]).0,
        )
}

/// `serde_yaml`'s `Clone` for `Number` copies the integer or the float that
/// the number holds: the copy is the same number.
pub assume_specification[ <serde_yaml::Number as Clone>::clone ](
    n: &serde_yaml::Number,
) -> (r: serde_yaml::Number)
    ensures
        r == *n,
;

/// Opens a `serde_yaml::Value` by one level: tells its variants apart and
/// moves out what the variant holds; the entries of a `Mapping` come in the
/// mapping's own order. A `Mapping` holds each key once.
#[verifier::external_body]
pub(crate) fn open_yaml(value: serde_yaml::Value) -> (r: YamlShape)
    ensures
        shape_tree(r) == yaml_tree(value),
        unique_keys(r),
{
    match value {
        serde_yaml::Value::Null => YamlShape::Null,
        serde_yaml::Value::Bool(b) => YamlShape::Bool(b),
        serde_yaml::Value::Number(n) => YamlShape::Number(n),
        serde_yaml::Value::String(s) => YamlShape::String(s),
        serde_yaml::Value::Sequence(items) => YamlShape::Sequence(items),
        serde_yaml::Value::Mapping(entries) => YamlShape::Mapping(entries.into_iter().collect()),
        serde_yaml::Value::Tagged(_) => YamlShape::Tagged,
    }
}

/// `Value::Null`.
#[verifier::external_body]
pub(crate) fn yaml_null() -> (r: serde_yaml::Value)
    ensures
        yaml_tree(r) == YamlTree::Null,
{
    serde_yaml::Value::Null
}

/// `Value::Bool` of a boolean.
#[verifier::external_body]
pub(crate) fn yaml_bool(b: bool) -> (r: serde_yaml::Value)
    ensures
        yaml_tree(r) == YamlTree::Bool(b),
{
    serde_yaml::Value::Bool(b)
}

/// `Value::Number` of `Number::from` of a 64-bit integer. `Number::as_i64`
/// gives the integer back.
#[verifier::external_body]
pub(crate) fn yaml_int(i: i64) -> (r: serde_yaml::Value)
    ensures
        yaml_tree(r) == YamlTree::Number(int_number(i)),
        number_int(yaml_tree(r)->Number_0) == Some(i),
{
    serde_yaml::Value::Number(serde_yaml::Number::from(i))
}

/// `Value::Number` of a number.
#[verifier::external_body]
pub(crate) fn yaml_number(n: serde_yaml::Number) -> (r: serde_yaml::Value)
    ensures
        yaml_tree(r) == YamlTree::Number(n),
{
    serde_yaml::Value::Number(n)
}

/// `Value::String` of a string.
#[verifier::external_body]
pub(crate) fn yaml_string(s: String) -> (r: serde_yaml::Value)
    ensures
        yaml_tree(r) == YamlTree::String(s@),
{
    serde_yaml::Value::String(s)
}

/// `Value::Sequence` of the values, in their order.
#[verifier::external_body]
pub(crate) fn yaml_sequence(items: Vec<serde_yaml::Value>) -> (r: serde_yaml::Value)
    ensures
        yaml_tree(r) == YamlTree::Sequence(Seq::new(items@.len(), |i: int| yaml_tree(items@[i]))),
{
    serde_yaml::Value::Sequence(items)
}

/// `Value::Mapping` of a `Mapping` collected from the entries. With
/// strings for keys, no two of them the same, the mapping holds the entries
/// in their order.
#[verifier::external_body]
pub(crate) fn yaml_mapping(entries: Vec<(serde_yaml::Value, serde_yaml::Value)>) -> (r:
    serde_yaml::Value)
    requires
        distinct_names(entries@),
    ensures
        yaml_tree(r) == shape_tree(YamlShape::Mapping(entries)),
{
    serde_yaml::Value::Mapping(entries.into_iter().collect())
}

/// `Number::as_i64`.
#[verifier::external_body]
pub(crate) fn number_as_int(n: &serde_yaml::Number) -> (r: Option<i64>)
    ensures
        r == number_int(*n),
{
    n.as_i64()
}

/// `Number::as_f64`, and `Number::from` of the float. `as_f64` gives a
/// float for every number. The number made holds a float: `as_i64` gives
/// nothing for it, and reading it as a float again makes the same number.
#[verifier::external_body]
pub(crate) fn number_as_float(n: &serde_yaml::Number) -> (r: Option<serde_yaml::Number>)
    ensures
        r == Some(number_float(*n)),
        r matches Some(x) ==> number_int(x) is None && number_float(x) == x,
{
    n.as_f64().map(serde_yaml::Number::from)
}

/// `to_string` of the float that `Number::as_f64` returns, which it does
/// for every number.
#[verifier::external_body]
pub(crate) fn float_text(n: &serde_yaml::Number) -> (r: Option<String>)
    ensures
        r is Some,
        r matches Some(text) ==> text@ == float_shown(*n),
{
    match n.as_f64() {
        Some(f) => Some(f.to_string()),
        None => None,
    }
}

/// The `Debug` text of the float that `Number::as_f64` returns, which it
/// does for every number.
#[verifier::external_body]
pub(crate) fn float_debug_text(n: &serde_yaml::Number) -> (r: Option<String>)
    ensures
        r is Some,
        r matches Some(text) ==> text@ == float_debug(*n),
{
    match n.as_f64() {
        Some(f) => Some(format!("{:?}", f)),
        None => None,
    }
}

/// The `Debug` text of a string.
#[verifier::external_body]
pub(crate) fn debug_text_of(s: &str) -> (r: String)
    ensures
        r@ == str_debug(s@),
{
    format!("{:?}", s)
}

} // verus!

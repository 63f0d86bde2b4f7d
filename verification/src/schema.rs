//! What a model's OpenAPI schema says about its inputs: the allowed
//! `aspect_ratio` values and whether it accepts `output_format`.

use vstd::prelude::*;
use crate::json::{get, items_of, json_pointer, member, pointer_child, pointer_of, str_of, strings_of, Json};
use crate::input::opt_views;
use crate::text::views;

verus! {

/// The `enum` array written on `node` itself.
pub open spec fn own_enum(node: Json) -> Option<Seq<Json>> {
    items_of(get(node, "enum"@))
}

/// The definition that the `$ref` of `node` points to: a string `#<pointer>`
/// read by serde_json as a JSON pointer into the whole schema.
pub open spec fn ref_target(schema: Json, node: Json) -> Option<Json> {
    match str_of(get(node, "$ref"@)) {
        Some(r) => if r.len() > 0 && r[0] == '#' {
            json_pointer(schema, r.drop_first())
        } else {
            None
        },
        None => None,
    }
}

/// The `enum` of `node`: its own, else that of its `$ref` target.
pub open spec fn enum_of(schema: Json, node: Json) -> Option<Seq<Json>> {
    match own_enum(node) {
        Some(v) => Some(v),
        None => match ref_target(schema, node) {
            Some(t) => own_enum(t),
            None => None,
        },
    }
}

/// The `enum` of the first of `items` that has one.
pub open spec fn first_enum(schema: Json, items: Seq<Json>) -> Option<Seq<Json>>
    decreases items.len(),
{
    if items.len() == 0 {
        None
    } else {
        match enum_of(schema, items[0]) {
            Some(v) => Some(v),
            None => first_enum(schema, items.drop_first()),
        }
    }
}

/// The allowed values of an `aspect_ratio` property `prop`: its `enum`,
/// directly or through `$ref`, else that of the first `allOf` member with one.
pub open spec fn property_enum(schema: Json, prop: Option<Json>) -> Option<Seq<Json>> {
    match prop {
        Some(prop) => match enum_of(schema, prop) {
            Some(v) => Some(v),
            None => match items_of(get(prop, "allOf"@)) {
                Some(items) => first_enum(schema, items),
                None => None,
            },
        },
        None => None,
    }
}

/// The allowed values of the `aspect_ratio` input, see [`property_enum`].
pub open spec fn aspect_ratio_enum(schema: Json) -> Option<Seq<Json>> {
    property_enum(schema, json_pointer(schema, "/components/schemas/Input/properties/aspect_ratio"@))
}

/// The member `name` of the schema's Input properties, whatever it holds.
pub open spec fn input_property(schema: Json, name: Seq<char>) -> Option<Json> {
    match json_pointer(schema, "/components/schemas/Input/properties"@) {
        Some(Json::Object(es)) => member(es@, name),
        _ => None,
    }
}

proof fn lemma_property_pointer(name: &str)
    requires
        name@.len() > 0,
        forall|i: int| 0 <= i < name@.len() ==> 'a' <= #[trigger] name@[i] <= 'z' || name@[i] == '_',
    ensures
        forall|p: Seq<char>| p == "/components/schemas/Input/properties/"@ + name@ ==> #[trigger] pointer_child(
            p,
            "/components/schemas/Input/properties"@,
            name@,
        ),
{
    reveal_strlit("/components/schemas/Input/properties/");
    reveal_strlit("/components/schemas/Input/properties");
    let parent = "/components/schemas/Input/properties"@;
    assert("/components/schemas/Input/properties/"@ =~= parent + seq!['/']);
    assert(!('0' <= name@[0] && name@[0] <= '9'));
    assert forall|p: Seq<char>| p == "/components/schemas/Input/properties/"@ + name@ implies #[trigger] pointer_child(
        p,
        parent,
        name@,
    ) by {
        assert(p =~= parent + seq!['/'] + name@);
    }
}

/// The model accepts an `output_format` input.
pub open spec fn output_format_input(schema: Json) -> bool {
    json_pointer(schema, "/components/schemas/Input/properties/output_format"@) is Some
}

/// The strings among `items`, in order.
pub fn strings_in(items: &Vec<Json>) -> (r: Vec<String>)
    ensures
        views(r@) == strings_of(items@),
{
    let mut r: Vec<String> = Vec::new();
    let n = items.len();
    for i in 0..n
        invariant
            n == items@.len(),
            views(r@) == strings_of(items@.take(i as int)),
    {
        assert(items@.take(i + 1).drop_last() =~= items@.take(i as int));
        match items[i].as_str() {
            Some(s) => {
                r.push(s.clone());
            },
            None => {},
        }
        assert(views(r@) =~= strings_of(items@.take(i + 1)));
    }
    assert(items@.take(n as int) =~= items@);
    r
}

/// The strings of `items`, when there are items.
pub open spec fn opt_strings(items: Option<Seq<Json>>) -> Option<Seq<Seq<char>>> {
    match items {
        Some(v) => Some(strings_of(v)),
        None => None,
    }
}

fn own_enum_exec(node: &Json) -> (r: Option<Vec<String>>)
    ensures
        opt_views(r) == opt_strings(own_enum(*node)),
{
    match node.get("enum") {
        Some(e) => match e.as_array() {
            Some(items) => Some(strings_in(items)),
            None => None,
        },
        None => None,
    }
}

fn ref_target_exec(schema: &Json, node: &Json) -> (r: Option<Json>)
    ensures
        r == ref_target(*schema, *node),
{
    let r = match node.get("$ref") {
        Some(x) => match x.as_str() {
            Some(r) => r,
            None => {
                return None;
            },
        },
        None => {
            return None;
        },
    };
    let s = r.as_str();
    let n: usize = s.unicode_len();
    if n == 0 || s.get_char(0) != '#' {
        return None;
    }
    let rest = s.substring_char(1, n);
    assert(rest@ =~= r@.drop_first());
    pointer_of(schema, rest)
}

fn enum_of_exec(schema: &Json, node: &Json) -> (r: Option<Vec<String>>)
    ensures
        opt_views(r) == opt_strings(enum_of(*schema, *node)),
{
    match own_enum_exec(node) {
        Some(v) => Some(v),
        None => match ref_target_exec(schema, node) {
            Some(t) => own_enum_exec(&t),
            None => None,
        },
    }
}

fn first_enum_exec(schema: &Json, items: &Vec<Json>) -> (r: Option<Vec<String>>)
    ensures
        opt_views(r) == opt_strings(first_enum(*schema, items@)),
{
    let n = items.len();
    assert(items@.skip(0) =~= items@);
    for i in 0..n
        invariant
            n == items@.len(),
            first_enum(*schema, items@) == first_enum(*schema, items@.skip(i as int)),
    {
        assert(items@.skip(i as int).drop_first() =~= items@.skip(i + 1));
        assert(items@.skip(i as int)[0] == items@[i as int]);
        match enum_of_exec(schema, &items[i]) {
            Some(v) => {
                return Some(v);
            },
            None => {},
        }
    }
    assert(items@.skip(n as int) =~= Seq::<Json>::empty());
    None
}

/// The allowed `aspect_ratio` values of a model schema, when it declares them.
pub fn aspect_ratios(schema: &Json) -> (r: Option<Vec<String>>)
    ensures
        match r {
            Some(v) => aspect_ratio_enum(*schema) matches Some(items) && views(v@) == strings_of(items),
            None => aspect_ratio_enum(*schema) is None,
        },
        aspect_ratio_enum(*schema) == property_enum(*schema, input_property(*schema, "aspect_ratio"@)),
{
    let path = "/components/schemas/Input/properties/aspect_ratio";
    proof {
        reveal_strlit("aspect_ratio");
        reveal_strlit("/components/schemas/Input/properties/aspect_ratio");
        reveal_strlit("/components/schemas/Input/properties/");
        assert(path@ =~= "/components/schemas/Input/properties/"@ + "aspect_ratio"@);
        lemma_property_pointer("aspect_ratio");
        assert(pointer_child(path@, "/components/schemas/Input/properties"@, "aspect_ratio"@));
    }
    let prop = match pointer_of(schema, path) {
        Some(p) => p,
        None => {
            return None;
        },
    };
    match enum_of_exec(schema, &prop) {
        Some(v) => Some(v),
        None => match prop.get("allOf") {
            Some(all) => match all.as_array() {
                Some(items) => first_enum_exec(schema, items),
                None => None,
            },
            None => None,
        },
    }
}

/// Whether a model schema declares an `output_format` input.
pub fn accepts_output_format(schema: &Json) -> (r: bool)
    ensures
        r == output_format_input(*schema),
        r == input_property(*schema, "output_format"@) is Some,
{
    let path = "/components/schemas/Input/properties/output_format";
    proof {
        reveal_strlit("output_format");
        reveal_strlit("/components/schemas/Input/properties/output_format");
        reveal_strlit("/components/schemas/Input/properties/");
        assert(path@ =~= "/components/schemas/Input/properties/"@ + "output_format"@);
        lemma_property_pointer("output_format");
        assert(pointer_child(path@, "/components/schemas/Input/properties"@, "output_format"@));
    }
    pointer_of(schema, path).is_some()
}

/// The latest published version of a model, as the API reports it.
pub struct ModelVersion {
    pub id: String,
    pub openapi_schema: Option<Json>,
}

/// A model resolved for predictions: the version to run and how it takes a size
/// and a format.
pub struct ResolvedModel {
    pub version: String,
    /// Allowed `aspect_ratio` values, if the model uses `aspect_ratio`.
    pub aspect_ratios: Option<Vec<String>>,
    /// The model accepts `output_format` (and delivers PNG or WebP itself).
    pub output_format: bool,
}

pub enum ResolveError {
    /// The model has no published version.
    NoPublishedVersion,
}

/// What a model lookup yields: its latest version and what its schema says.
pub fn resolve_model(latest_version: Option<ModelVersion>) -> (r: Result<ResolvedModel, ResolveError>)
    ensures
        latest_version is None <==> r is Err,
        r matches Ok(m) ==> {
            let v = latest_version->0;
            &&& m.version@ == v.id@
            &&& match v.openapi_schema {
                Some(s) => {
                    &&& m.output_format == output_format_input(s)
                    &&& m.output_format == (input_property(s, "output_format"@) is Some)
                    &&& aspect_ratio_enum(s) == property_enum(s, input_property(s, "aspect_ratio"@))
                    &&& match m.aspect_ratios {
                        Some(a) => aspect_ratio_enum(s) matches Some(items) && views(a@) == strings_of(items),
                        None => aspect_ratio_enum(s) is None,
                    }
                },
                None => !m.output_format && m.aspect_ratios is None,
            }
        },
{
    let v = match latest_version {
        Some(v) => v,
        None => {
            return Err(ResolveError::NoPublishedVersion);
        },
    };
    let (aspect_ratios, output_format) = match &v.openapi_schema {
        Some(s) => (aspect_ratios(s), accepts_output_format(s)),
        None => (None, false),
    };
    Ok(ResolvedModel { version: v.id, aspect_ratios, output_format })
}

} // verus!

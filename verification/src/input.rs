//! The `input` object of a prediction request.

use vstd::prelude::*;
use crate::json::{Json, JsonNumber};
use crate::ratio::{best_aspect_ratio, best_ratio};
use crate::text::{str_eq, views};

verus! {

/// Member `e` is `k: "v"`.
pub open spec fn text_member(e: (String, Json), k: Seq<char>, v: Seq<char>) -> bool {
    &&& e.0@ == k
    &&& e.1 matches Json::Str(s) && s@ == v
}

/// Member `e` is `k: n`.
pub open spec fn number_member(e: (String, Json), k: Seq<char>, n: JsonNumber) -> bool {
    &&& e.0@ == k
    &&& e.1 == Json::Number(n)
}

/// `m[i]` and `m[i + 1]` are `width` and `height`.
pub open spec fn size_members(m: Seq<(String, Json)>, i: int, width: u32, height: u32) -> bool {
    &&& number_member(m[i], "width"@, JsonNumber::PosInt(width as u64))
    &&& number_member(m[i + 1], "height"@, JsonNumber::PosInt(height as u64))
}

/// How many members describe the size: `aspect_ratio` and the pixel size when
/// `custom` is chosen, `aspect_ratio` alone for a fixed ratio, the pixel size
/// alone when the model takes no `aspect_ratio`.
pub open spec fn size_len(ratios: Option<Seq<Seq<char>>>, width: u32, height: u32) -> int {
    match ratios {
        Some(rs) => if best_ratio(rs, width as nat, height as nat) == "custom"@ {
            3
        } else {
            1
        },
        None => 2,
    }
}

/// How many members select the format: none when the model takes no
/// `output_format`, else `output_format` and, for WebP, `output_quality`.
pub open spec fn format_len(output_format: bool, webp: Option<JsonNumber>) -> int {
    if !output_format {
        0
    } else if webp is Some {
        2
    } else {
        1
    }
}

/// `r` is the input object for `prompt` at `width × height`, for a model with
/// the given `aspect_ratio` values and `output_format` support, with WebP
/// output at quality `webp` when it is set.
pub open spec fn is_input(
    r: Json,
    prompt: Seq<char>,
    width: u32,
    height: u32,
    ratios: Option<Seq<Seq<char>>>,
    output_format: bool,
    webp: Option<JsonNumber>,
) -> bool {
    match r {
        Json::Object(es) => {
            let m = es@;
            let s = size_len(ratios, width, height);
            &&& m.len() == 1 + s + format_len(output_format, webp)
            &&& text_member(m[0], "prompt"@, prompt)
            &&& match ratios {
                Some(rs) => {
                    let ratio = best_ratio(rs, width as nat, height as nat);
                    &&& text_member(m[1], "aspect_ratio"@, ratio)
                    &&& ratio == "custom"@ ==> size_members(m, 2, width, height)
                },
                None => size_members(m, 1, width, height),
            }
            &&& output_format ==> match webp {
                Some(q) => {
                    &&& text_member(m[1 + s], "output_format"@, "webp"@)
                    &&& number_member(m[2 + s], "output_quality"@, q)
                },
                None => text_member(m[1 + s], "output_format"@, "png"@),
            }
        },
        _ => false,
    }
}

pub open spec fn opt_views(r: Option<Vec<String>>) -> Option<Seq<Seq<char>>> {
    match r {
        Some(v) => Some(views(v@)),
        None => None,
    }
}

fn text(k: &str, v: &str) -> (e: (String, Json))
    ensures
        text_member(e, k@, v@),
{
    (String::from_str(k), Json::Str(String::from_str(v)))
}

fn number(k: &str, n: JsonNumber) -> (e: (String, Json))
    ensures
        number_member(e, k@, n),
{
    (String::from_str(k), Json::Number(n))
}

/// The `input` of a prediction: the prompt, the size in the form the model
/// takes (exact pixels with `aspect_ratio: custom`, the closest allowed ratio,
/// or plain `width` and `height`), and, for a model that accepts
/// `output_format`, `png` or `webp` with `output_quality`.
pub fn build_input(
    prompt: &str,
    width: u32,
    height: u32,
    aspect_ratios: &Option<Vec<String>>,
    output_format: bool,
    webp_quality: &Option<JsonNumber>,
) -> (r: Json)
    ensures
        is_input(r, prompt@, width, height, opt_views(*aspect_ratios), output_format, *webp_quality),
{
    let mut m: Vec<(String, Json)> = Vec::new();
    m.push(text("prompt", prompt));
    match aspect_ratios {
        Some(ratios) => {
            let ratio = best_aspect_ratio(width, height, ratios.as_slice());
            if str_eq(ratio.as_str(), "custom") {
                m.push(text("aspect_ratio", "custom"));
                m.push(number("width", JsonNumber::PosInt(width as u64)));
                m.push(number("height", JsonNumber::PosInt(height as u64)));
            } else {
                m.push((String::from_str("aspect_ratio"), Json::Str(ratio)));
            }
        },
        None => {
            m.push(number("width", JsonNumber::PosInt(width as u64)));
            m.push(number("height", JsonNumber::PosInt(height as u64)));
        },
    }
    let ghost s = m@.len() - 1;
    assert(s == size_len(opt_views(*aspect_ratios), width, height));
    if output_format {
        match webp_quality {
            Some(q) => {
                m.push(text("output_format", "webp"));
                m.push(number("output_quality", q.duplicate()));
            },
            None => {
                m.push(text("output_format", "png"));
            },
        }
    }
    Json::Object(m)
}

} // verus!

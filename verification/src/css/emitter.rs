//! CSS emission: the declarations of each utility, and the rules for a list
//! of class tokens grouped by breakpoint and state.
use vstd::prelude::*;
use crate::css::parser::{
    min_width, pseudo_of, selector_text, tokens_view, ClassToken, ResponsivePrefix, StatePrefix,
    TokenView,
};
use crate::text::{
    chars_of, chars_start_with, decimal, decimal_string, parse_usize, parse_usize_chars, push_str,
    str_eq, string_from_range, to_string,
};

verus! {

// ─── Fixed utilities ─────────────────────────────────────────────────────────

/// The declaration of a layout utility.
pub open spec fn layout_decl(n: Seq<char>) -> Option<Seq<char>> {
    if n == "block"@ {
        Some("display: block"@)
    } else if n == "inline"@ {
        Some("display: inline"@)
    } else if n == "inline-block"@ {
        Some("display: inline-block"@)
    } else if n == "flex"@ {
        Some("display: flex"@)
    } else if n == "inline-flex"@ {
        Some("display: inline-flex"@)
    } else if n == "grid"@ {
        Some("display: grid"@)
    } else if n == "hidden"@ {
        Some("display: none"@)
    } else if n == "relative"@ {
        Some("position: relative"@)
    } else if n == "absolute"@ {
        Some("position: absolute"@)
    } else if n == "fixed"@ {
        Some("position: fixed"@)
    } else if n == "static"@ {
        Some("position: static"@)
    } else if n == "sticky"@ {
        Some("position: sticky"@)
    } else if n == "flex-row"@ {
        Some("flex-direction: row"@)
    } else if n == "flex-col"@ {
        Some("flex-direction: column"@)
    } else if n == "flex-wrap"@ {
        Some("flex-wrap: wrap"@)
    } else if n == "flex-nowrap"@ {
        Some("flex-wrap: nowrap"@)
    } else if n == "flex-1"@ {
        Some("flex: 1 1 0%"@)
    } else if n == "flex-auto"@ {
        Some("flex: 1 1 auto"@)
    } else if n == "flex-none"@ {
        Some("flex: none"@)
    } else {
        align_decl(n)
    }
}

/// The declaration of an alignment or gap utility.
pub open spec fn align_decl(n: Seq<char>) -> Option<Seq<char>> {
    if n == "items-center"@ {
        Some("align-items: center"@)
    } else if n == "items-start"@ {
        Some("align-items: flex-start"@)
    } else if n == "items-end"@ {
        Some("align-items: flex-end"@)
    } else if n == "items-stretch"@ {
        Some("align-items: stretch"@)
    } else if n == "items-baseline"@ {
        Some("align-items: baseline"@)
    } else if n == "justify-center"@ {
        Some("justify-content: center"@)
    } else if n == "justify-between"@ {
        Some("justify-content: space-between"@)
    } else if n == "justify-start"@ {
        Some("justify-content: flex-start"@)
    } else if n == "justify-end"@ {
        Some("justify-content: flex-end"@)
    } else if n == "justify-around"@ {
        Some("justify-content: space-around"@)
    } else if n == "justify-evenly"@ {
        Some("justify-content: space-evenly"@)
    } else if n == "self-auto"@ {
        Some("align-self: auto"@)
    } else if n == "self-start"@ {
        Some("align-self: flex-start"@)
    } else if n == "self-end"@ {
        Some("align-self: flex-end"@)
    } else if n == "self-center"@ {
        Some("align-self: center"@)
    } else if n == "gap-1"@ {
        Some("gap: 0.25rem"@)
    } else if n == "gap-2"@ {
        Some("gap: 0.5rem"@)
    } else if n == "gap-4"@ {
        Some("gap: 1rem"@)
    } else if n == "gap-6"@ {
        Some("gap: 1.5rem"@)
    } else if n == "gap-8"@ {
        Some("gap: 2rem"@)
    } else {
        None
    }
}

/// The declaration of a typography utility.
pub open spec fn type_decl(n: Seq<char>) -> Option<Seq<char>> {
    if n == "italic"@ {
        Some("font-style: italic"@)
    } else if n == "font-bold"@ {
        Some("font-weight: 700"@)
    } else if n == "font-semibold"@ {
        Some("font-weight: 600"@)
    } else if n == "font-medium"@ {
        Some("font-weight: 500"@)
    } else if n == "font-normal"@ {
        Some("font-weight: 400"@)
    } else if n == "font-light"@ {
        Some("font-weight: 300"@)
    } else if n == "text-center"@ {
        Some("text-align: center"@)
    } else if n == "text-left"@ {
        Some("text-align: left"@)
    } else if n == "text-right"@ {
        Some("text-align: right"@)
    } else {
        None
    }
}

/// The font size of a text-size utility.
pub open spec fn text_size(n: Seq<char>) -> Option<Seq<char>> {
    if n == "text-xs"@ {
        Some("0.75rem"@)
    } else if n == "text-sm"@ {
        Some("0.875rem"@)
    } else if n == "text-base"@ {
        Some("1rem"@)
    } else if n == "text-lg"@ {
        Some("1.125rem"@)
    } else if n == "text-xl"@ {
        Some("1.25rem"@)
    } else if n == "text-2xl"@ {
        Some("1.5rem"@)
    } else if n == "text-3xl"@ {
        Some("1.875rem"@)
    } else if n == "text-4xl"@ {
        Some("2.25rem"@)
    } else {
        None
    }
}

/// The declaration of a border or radius utility.
pub open spec fn border_decl(n: Seq<char>) -> Option<Seq<char>> {
    if n == "border"@ {
        Some("border-width: 1px"@)
    } else if n == "border-0"@ {
        Some("border-width: 0"@)
    } else if n == "border-2"@ {
        Some("border-width: 2px"@)
    } else if n == "rounded"@ {
        Some("border-radius: 0.25rem"@)
    } else if n == "rounded-sm"@ {
        Some("border-radius: 0.125rem"@)
    } else if n == "rounded-md"@ {
        Some("border-radius: 0.375rem"@)
    } else if n == "rounded-lg"@ {
        Some("border-radius: 0.5rem"@)
    } else if n == "rounded-xl"@ {
        Some("border-radius: 0.75rem"@)
    } else if n == "rounded-2xl"@ {
        Some("border-radius: 1rem"@)
    } else if n == "rounded-full"@ {
        Some("border-radius: 9999px"@)
    } else {
        None
    }
}

/// The single declaration of a utility named outright, if it is one.
pub open spec fn fixed_decl(n: Seq<char>) -> Option<Seq<char>> {
    if layout_decl(n) is Some {
        layout_decl(n)
    } else if type_decl(n) is Some {
        type_decl(n)
    } else if text_size(n) is Some {
        Some("font-size: "@ + text_size(n)->0)
    } else {
        border_decl(n)
    }
}

fn layout_utility(n: &str) -> (r: Option<&'static str>)
    ensures
        match r {
            Some(d) => layout_decl(n@) == Some(d@),
            None => layout_decl(n@) is None,
        },
{
    if str_eq(n, "block") {
        Some("display: block")
    } else if str_eq(n, "inline") {
        Some("display: inline")
    } else if str_eq(n, "inline-block") {
        Some("display: inline-block")
    } else if str_eq(n, "flex") {
        Some("display: flex")
    } else if str_eq(n, "inline-flex") {
        Some("display: inline-flex")
    } else if str_eq(n, "grid") {
        Some("display: grid")
    } else if str_eq(n, "hidden") {
        Some("display: none")
    } else if str_eq(n, "relative") {
        Some("position: relative")
    } else if str_eq(n, "absolute") {
        Some("position: absolute")
    } else if str_eq(n, "fixed") {
        Some("position: fixed")
    } else if str_eq(n, "static") {
        Some("position: static")
    } else if str_eq(n, "sticky") {
        Some("position: sticky")
    } else if str_eq(n, "flex-row") {
        Some("flex-direction: row")
    } else if str_eq(n, "flex-col") {
        Some("flex-direction: column")
    } else if str_eq(n, "flex-wrap") {
        Some("flex-wrap: wrap")
    } else if str_eq(n, "flex-nowrap") {
        Some("flex-wrap: nowrap")
    } else if str_eq(n, "flex-1") {
        Some("flex: 1 1 0%")
    } else if str_eq(n, "flex-auto") {
        Some("flex: 1 1 auto")
    } else if str_eq(n, "flex-none") {
        Some("flex: none")
    } else {
        align_utility(n)
    }
}

fn align_utility(n: &str) -> (r: Option<&'static str>)
    ensures
        match r {
            Some(d) => align_decl(n@) == Some(d@),
            None => align_decl(n@) is None,
        },
{
    if str_eq(n, "items-center") {
        Some("align-items: center")
    } else if str_eq(n, "items-start") {
        Some("align-items: flex-start")
    } else if str_eq(n, "items-end") {
        Some("align-items: flex-end")
    } else if str_eq(n, "items-stretch") {
        Some("align-items: stretch")
    } else if str_eq(n, "items-baseline") {
        Some("align-items: baseline")
    } else if str_eq(n, "justify-center") {
        Some("justify-content: center")
    } else if str_eq(n, "justify-between") {
        Some("justify-content: space-between")
    } else if str_eq(n, "justify-start") {
        Some("justify-content: flex-start")
    } else if str_eq(n, "justify-end") {
        Some("justify-content: flex-end")
    } else if str_eq(n, "justify-around") {
        Some("justify-content: space-around")
    } else if str_eq(n, "justify-evenly") {
        Some("justify-content: space-evenly")
    } else if str_eq(n, "self-auto") {
        Some("align-self: auto")
    } else if str_eq(n, "self-start") {
        Some("align-self: flex-start")
    } else if str_eq(n, "self-end") {
        Some("align-self: flex-end")
    } else if str_eq(n, "self-center") {
        Some("align-self: center")
    } else if str_eq(n, "gap-1") {
        Some("gap: 0.25rem")
    } else if str_eq(n, "gap-2") {
        Some("gap: 0.5rem")
    } else if str_eq(n, "gap-4") {
        Some("gap: 1rem")
    } else if str_eq(n, "gap-6") {
        Some("gap: 1.5rem")
    } else if str_eq(n, "gap-8") {
        Some("gap: 2rem")
    } else {
        None
    }
}

fn type_utility(n: &str) -> (r: Option<&'static str>)
    ensures
        match r {
            Some(d) => type_decl(n@) == Some(d@),
            None => type_decl(n@) is None,
        },
{
    if str_eq(n, "italic") {
        Some("font-style: italic")
    } else if str_eq(n, "font-bold") {
        Some("font-weight: 700")
    } else if str_eq(n, "font-semibold") {
        Some("font-weight: 600")
    } else if str_eq(n, "font-medium") {
        Some("font-weight: 500")
    } else if str_eq(n, "font-normal") {
        Some("font-weight: 400")
    } else if str_eq(n, "font-light") {
        Some("font-weight: 300")
    } else if str_eq(n, "text-center") {
        Some("text-align: center")
    } else if str_eq(n, "text-left") {
        Some("text-align: left")
    } else if str_eq(n, "text-right") {
        Some("text-align: right")
    } else {
        None
    }
}

fn text_size_of(n: &str) -> (r: Option<&'static str>)
    ensures
        match r {
            Some(d) => text_size(n@) == Some(d@),
            None => text_size(n@) is None,
        },
{
    if str_eq(n, "text-xs") {
        Some("0.75rem")
    } else if str_eq(n, "text-sm") {
        Some("0.875rem")
    } else if str_eq(n, "text-base") {
        Some("1rem")
    } else if str_eq(n, "text-lg") {
        Some("1.125rem")
    } else if str_eq(n, "text-xl") {
        Some("1.25rem")
    } else if str_eq(n, "text-2xl") {
        Some("1.5rem")
    } else if str_eq(n, "text-3xl") {
        Some("1.875rem")
    } else if str_eq(n, "text-4xl") {
        Some("2.25rem")
    } else {
        None
    }
}

fn border_utility(n: &str) -> (r: Option<&'static str>)
    ensures
        match r {
            Some(d) => border_decl(n@) == Some(d@),
            None => border_decl(n@) is None,
        },
{
    if str_eq(n, "border") {
        Some("border-width: 1px")
    } else if str_eq(n, "border-0") {
        Some("border-width: 0")
    } else if str_eq(n, "border-2") {
        Some("border-width: 2px")
    } else if str_eq(n, "rounded") {
        Some("border-radius: 0.25rem")
    } else if str_eq(n, "rounded-sm") {
        Some("border-radius: 0.125rem")
    } else if str_eq(n, "rounded-md") {
        Some("border-radius: 0.375rem")
    } else if str_eq(n, "rounded-lg") {
        Some("border-radius: 0.5rem")
    } else if str_eq(n, "rounded-xl") {
        Some("border-radius: 0.75rem")
    } else if str_eq(n, "rounded-2xl") {
        Some("border-radius: 1rem")
    } else if str_eq(n, "rounded-full") {
        Some("border-radius: 9999px")
    } else {
        None
    }
}

fn fixed_utility(n: &str) -> (r: Option<String>)
    ensures
        match r {
            Some(d) => fixed_decl(n@) == Some(d@),
            None => fixed_decl(n@) is None,
        },
{
    match layout_utility(n) {
        Some(d) => {
            return Some(to_string(d));
        },
        None => {},
    }
    match type_utility(n) {
        Some(d) => {
            return Some(to_string(d));
        },
        None => {},
    }
    match text_size_of(n) {
        Some(size) => {
            let mut d = to_string("font-size: ");
            push_str(&mut d, size);
            return Some(d);
        },
        None => {},
    }
    match border_utility(n) {
        Some(d) => Some(to_string(d)),
        None => None,
    }
}

// ─── Numbers and spacing ─────────────────────────────────────────────────────

/// `str::parse::<u32>`: an optional `+` then one or more ASCII digits whose
/// value fits in `u32`.
pub open spec fn parse_u32(s: Seq<char>) -> Option<u32> {
    match parse_usize(s) {
        Some(v) => if v <= u32::MAX {
            Some(v as u32)
        } else {
            None
        },
        None => None,
    }
}

/// A spacing step: a `u32` of at most 16.
pub open spec fn spacing_step(s: Seq<char>) -> Option<u32> {
    match parse_u32(s) {
        Some(n) => if n <= 16 {
            Some(n)
        } else {
            None
        },
        None => None,
    }
}

/// A length of `n` quarter rem, as the shortest decimal (`0`, `0.25`, `0.5`,
/// `0.75`, `1`, ...), followed by `rem`.
pub open spec fn spacing_text(n: u32) -> Seq<char> {
    decimal((n / 4) as nat) + (if n % 4 == 1 {
        ".25"@
    } else if n % 4 == 2 {
        ".5"@
    } else if n % 4 == 3 {
        ".75"@
    } else {
        seq![]
    }) + "rem"@
}

fn parse_u32_of(s: &[char], from: usize) -> (r: Option<u32>)
    requires
        from <= s@.len(),
    ensures
        r == parse_u32(s@.subrange(from as int, s@.len() as int)),
{
    match parse_usize_chars(s, from, s.len()) {
        Some(v) => if v <= 4294967295usize {
            Some(v as u32)
        } else {
            None
        },
        None => None,
    }
}

/// The spacing step written in `s`: a number from 0 to 16.
fn parse_spacing(s: &[char], from: usize) -> (r: Option<u32>)
    requires
        from <= s@.len(),
    ensures
        r == spacing_step(s@.subrange(from as int, s@.len() as int)),
{
    match parse_u32_of(s, from) {
        Some(n) => if n <= 16 {
            Some(n)
        } else {
            None
        },
        None => None,
    }
}

/// The length of spacing step `n`: a quarter rem per step (4px).
fn spacing_value(n: u32) -> (r: String)
    requires
        n <= 16,
    ensures
        r@ == spacing_text(n),
{
    let mut out = decimal_string((n / 4) as u64);
    let q = n % 4;
    if q == 1 {
        push_str(&mut out, ".25");
    } else if q == 2 {
        push_str(&mut out, ".5");
    } else if q == 3 {
        push_str(&mut out, ".75");
    }
    push_str(&mut out, "rem");
    out
}

// ─── Colours ─────────────────────────────────────────────────────────────────

/// The palette's colour names, in the order they are tried.
pub open spec fn colour_names() -> Seq<Seq<char>> {
    seq!["red"@, "blue"@, "green"@, "gray"@, "yellow"@, "purple"@]
}

/// The hex value of a shade of a palette colour.
pub open spec fn shade_hex(colour: Seq<char>, shade: Seq<char>) -> Option<Seq<char>> {
    if colour == "red"@ {
        if shade == "100"@ {
            Some("#fee2e2"@)
        } else if shade == "200"@ {
            Some("#fecaca"@)
        } else if shade == "300"@ {
            Some("#fca5a5"@)
        } else if shade == "400"@ {
            Some("#f87171"@)
        } else if shade == "500"@ {
            Some("#ef4444"@)
        } else if shade == "600"@ {
            Some("#dc2626"@)
        } else if shade == "700"@ {
            Some("#b91c1c"@)
        } else if shade == "800"@ {
            Some("#991b1b"@)
        } else if shade == "900"@ {
            Some("#7f1d1d"@)
        } else {
            None
        }
    } else if colour == "blue"@ {
        if shade == "100"@ {
            Some("#dbeafe"@)
        } else if shade == "200"@ {
            Some("#bfdbfe"@)
        } else if shade == "300"@ {
            Some("#93c5fd"@)
        } else if shade == "400"@ {
            Some("#60a5fa"@)
        } else if shade == "500"@ {
            Some("#3b82f6"@)
        } else if shade == "600"@ {
            Some("#2563eb"@)
        } else if shade == "700"@ {
            Some("#1d4ed8"@)
        } else if shade == "800"@ {
            Some("#1e40af"@)
        } else if shade == "900"@ {
            Some("#1e3a8a"@)
        } else {
            None
        }
    } else if colour == "green"@ {
        if shade == "100"@ {
            Some("#dcfce7"@)
        } else if shade == "200"@ {
            Some("#bbf7d0"@)
        } else if shade == "300"@ {
            Some("#86efac"@)
        } else if shade == "400"@ {
            Some("#4ade80"@)
        } else if shade == "500"@ {
            Some("#22c55e"@)
        } else if shade == "600"@ {
            Some("#16a34a"@)
        } else if shade == "700"@ {
            Some("#15803d"@)
        } else if shade == "800"@ {
            Some("#166534"@)
        } else if shade == "900"@ {
            Some("#14532d"@)
        } else {
            None
        }
    } else if colour == "gray"@ {
        if shade == "100"@ {
            Some("#f3f4f6"@)
        } else if shade == "200"@ {
            Some("#e5e7eb"@)
        } else if shade == "300"@ {
            Some("#d1d5db"@)
        } else if shade == "400"@ {
            Some("#9ca3af"@)
        } else if shade == "500"@ {
            Some("#6b7280"@)
        } else if shade == "600"@ {
            Some("#4b5563"@)
        } else if shade == "700"@ {
            Some("#374151"@)
        } else if shade == "800"@ {
            Some("#1f2937"@)
        } else if shade == "900"@ {
            Some("#111827"@)
        } else {
            None
        }
    } else if colour == "yellow"@ {
        if shade == "100"@ {
            Some("#fef3c7"@)
        } else if shade == "200"@ {
            Some("#fde68a"@)
        } else if shade == "300"@ {
            Some("#fcd34d"@)
        } else if shade == "400"@ {
            Some("#fbbf24"@)
        } else if shade == "500"@ {
            Some("#f59e0b"@)
        } else if shade == "600"@ {
            Some("#d97706"@)
        } else if shade == "700"@ {
            Some("#b45309"@)
        } else if shade == "800"@ {
            Some("#92400e"@)
        } else if shade == "900"@ {
            Some("#78350f"@)
        } else {
            None
        }
    } else if colour == "purple"@ {
        if shade == "100"@ {
            Some("#f3e8ff"@)
        } else if shade == "200"@ {
            Some("#e9d5ff"@)
        } else if shade == "300"@ {
            Some("#d8b4fe"@)
        } else if shade == "400"@ {
            Some("#c084fc"@)
        } else if shade == "500"@ {
            Some("#a855f7"@)
        } else if shade == "600"@ {
            Some("#9333ea"@)
        } else if shade == "700"@ {
            Some("#7e22ce"@)
        } else if shade == "800"@ {
            Some("#6b21a8"@)
        } else if shade == "900"@ {
            Some("#581c87"@)
        } else {
            None
        }
    } else {
        None
    }
}

fn shade_of(colour: &str, shade: &str) -> (r: Option<&'static str>)
    ensures
        match r {
            Some(h) => shade_hex(colour@, shade@) == Some(h@),
            None => shade_hex(colour@, shade@) is None,
        },
{
    if str_eq(colour, "red") {
        if str_eq(shade, "100") {
            Some("#fee2e2")
        } else if str_eq(shade, "200") {
            Some("#fecaca")
        } else if str_eq(shade, "300") {
            Some("#fca5a5")
        } else if str_eq(shade, "400") {
            Some("#f87171")
        } else if str_eq(shade, "500") {
            Some("#ef4444")
        } else if str_eq(shade, "600") {
            Some("#dc2626")
        } else if str_eq(shade, "700") {
            Some("#b91c1c")
        } else if str_eq(shade, "800") {
            Some("#991b1b")
        } else if str_eq(shade, "900") {
            Some("#7f1d1d")
        } else {
            None
        }
    } else if str_eq(colour, "blue") {
        if str_eq(shade, "100") {
            Some("#dbeafe")
        } else if str_eq(shade, "200") {
            Some("#bfdbfe")
        } else if str_eq(shade, "300") {
            Some("#93c5fd")
        } else if str_eq(shade, "400") {
            Some("#60a5fa")
        } else if str_eq(shade, "500") {
            Some("#3b82f6")
        } else if str_eq(shade, "600") {
            Some("#2563eb")
        } else if str_eq(shade, "700") {
            Some("#1d4ed8")
        } else if str_eq(shade, "800") {
            Some("#1e40af")
        } else if str_eq(shade, "900") {
            Some("#1e3a8a")
        } else {
            None
        }
    } else if str_eq(colour, "green") {
        if str_eq(shade, "100") {
            Some("#dcfce7")
        } else if str_eq(shade, "200") {
            Some("#bbf7d0")
        } else if str_eq(shade, "300") {
            Some("#86efac")
        } else if str_eq(shade, "400") {
            Some("#4ade80")
        } else if str_eq(shade, "500") {
            Some("#22c55e")
        } else if str_eq(shade, "600") {
            Some("#16a34a")
        } else if str_eq(shade, "700") {
            Some("#15803d")
        } else if str_eq(shade, "800") {
            Some("#166534")
        } else if str_eq(shade, "900") {
            Some("#14532d")
        } else {
            None
        }
    } else if str_eq(colour, "gray") {
        if str_eq(shade, "100") {
            Some("#f3f4f6")
        } else if str_eq(shade, "200") {
            Some("#e5e7eb")
        } else if str_eq(shade, "300") {
            Some("#d1d5db")
        } else if str_eq(shade, "400") {
            Some("#9ca3af")
        } else if str_eq(shade, "500") {
            Some("#6b7280")
        } else if str_eq(shade, "600") {
            Some("#4b5563")
        } else if str_eq(shade, "700") {
            Some("#374151")
        } else if str_eq(shade, "800") {
            Some("#1f2937")
        } else if str_eq(shade, "900") {
            Some("#111827")
        } else {
            None
        }
    } else if str_eq(colour, "yellow") {
        if str_eq(shade, "100") {
            Some("#fef3c7")
        } else if str_eq(shade, "200") {
            Some("#fde68a")
        } else if str_eq(shade, "300") {
            Some("#fcd34d")
        } else if str_eq(shade, "400") {
            Some("#fbbf24")
        } else if str_eq(shade, "500") {
            Some("#f59e0b")
        } else if str_eq(shade, "600") {
            Some("#d97706")
        } else if str_eq(shade, "700") {
            Some("#b45309")
        } else if str_eq(shade, "800") {
            Some("#92400e")
        } else if str_eq(shade, "900") {
            Some("#78350f")
        } else {
            None
        }
    } else if str_eq(colour, "purple") {
        if str_eq(shade, "100") {
            Some("#f3e8ff")
        } else if str_eq(shade, "200") {
            Some("#e9d5ff")
        } else if str_eq(shade, "300") {
            Some("#d8b4fe")
        } else if str_eq(shade, "400") {
            Some("#c084fc")
        } else if str_eq(shade, "500") {
            Some("#a855f7")
        } else if str_eq(shade, "600") {
            Some("#9333ea")
        } else if str_eq(shade, "700") {
            Some("#7e22ce")
        } else if str_eq(shade, "800") {
            Some("#6b21a8")
        } else if str_eq(shade, "900") {
            Some("#581c87")
        } else {
            None
        }
    } else {
        None
    }
}

/// The colour of the first palette colour, from the `i`-th on, that `input`
/// names as `colour-shade` with a known shade.
pub open spec fn shaded_colour(input: Seq<char>, names: Seq<Seq<char>>, i: int) -> Option<Seq<char>>
    decreases names.len() - i,
{
    if i < 0 || i >= names.len() {
        None
    } else {
        let pre = names[i] + seq!['-'];
        if crate::text::starts_with(input, pre) && shade_hex(
            names[i],
            input.subrange(pre.len() as int, input.len() as int),
        ) is Some {
            shade_hex(names[i], input.subrange(pre.len() as int, input.len() as int))
        } else {
            shaded_colour(input, names, i + 1)
        }
    }
}

/// The 500 shade of the first palette colour, from the `i`-th on, that
/// `input` names bare.
pub open spec fn bare_colour(input: Seq<char>, names: Seq<Seq<char>>, i: int) -> Option<Seq<char>>
    decreases names.len() - i,
{
    if i < 0 || i >= names.len() {
        None
    } else if input == names[i] {
        shade_hex(names[i], "500"@)
    } else {
        bare_colour(input, names, i + 1)
    }
}

/// The CSS colour that `red-500` (or a bare `red`, meaning its 500 shade)
/// names.
pub open spec fn colour_value(input: Seq<char>) -> Option<Seq<char>> {
    match shaded_colour(input, colour_names(), 0) {
        Some(h) => Some(h),
        None => bare_colour(input, colour_names(), 0),
    }
}

/// Maps a colour name like `red-500` (or `red`) to its CSS value.
fn parse_color(input: &str) -> (r: Option<String>)
    ensures
        match r {
            Some(h) => colour_value(input@) == Some(h@),
            None => colour_value(input@) is None,
        },
{
    let names = ["red", "blue", "green", "gray", "yellow", "purple"];
    let ghost nv = colour_names();
    assert(names@.len() == 6);
    assert(forall|k: int| 0 <= k < 6 ==> #[trigger] names@[k]@ == nv[k]);
    let cs = chars_of(input);
    let mut i: usize = 0;
    while i < 6
        invariant
            i <= 6,
            names@.len() == 6,
            nv == colour_names(),
            cs@ == input@,
            forall|k: int| 0 <= k < 6 ==> #[trigger] names@[k]@ == nv[k],
            shaded_colour(input@, nv, 0) == shaded_colour(input@, nv, i as int),
        decreases 6 - i,
    {
        let mut pre = to_string(names[i]);
        crate::text::push_char(&mut pre, '-');
        let pc = chars_of(pre.as_str());
        assert(pc@ =~= nv[i as int] + seq!['-']);
        if chars_start_with(&cs, &pc) {
            let n = cs.len();
            let rest = string_from_range(&cs, pc.len(), n);
            match shade_of(names[i], rest.as_str()) {
                Some(h) => {
                    return Some(to_string(h));
                },
                None => {},
            }
        }
        i = i + 1;
    }
    let mut j: usize = 0;
    while j < 6
        invariant
            j <= 6,
            names@.len() == 6,
            nv == colour_names(),
            forall|k: int| 0 <= k < 6 ==> #[trigger] names@[k]@ == nv[k],
            shaded_colour(input@, nv, 0) is None,
            bare_colour(input@, nv, 0) == bare_colour(input@, nv, j as int),
        decreases 6 - j,
    {
        if str_eq(input, names[j]) {
            return match shade_of(names[j], "500") {
                Some(h) => Some(to_string(h)),
                None => None,
            };
        }
        j = j + 1;
    }
    None
}

// ─── Utilities ───────────────────────────────────────────────────────────────

/// What follows `pre` in `n`, when `n` starts with it.
pub open spec fn rest_after(n: Seq<char>, pre: Seq<char>) -> Option<Seq<char>> {
    if crate::text::starts_with(n, pre) {
        Some(n.subrange(pre.len() as int, n.len() as int))
    } else {
        None
    }
}

/// The spacing step after `pre` in `n`.
pub open spec fn step_after(n: Seq<char>, pre: Seq<char>) -> Option<u32> {
    match rest_after(n, pre) {
        Some(r) => spacing_step(r),
        None => None,
    }
}

/// The size declaration of `prop` given after `pre` in `n`: `full` is 100%,
/// a number is that many pixels.
pub open spec fn size_after(n: Seq<char>, pre: Seq<char>, prop: Seq<char>) -> Option<Seq<char>> {
    match rest_after(n, pre) {
        Some(r) => if r == "full"@ {
            Some(decl_text(prop, "100%"@))
        } else {
            match parse_u32(r) {
                Some(v) => Some(decl_text(prop, decimal(v as nat) + "px"@)),
                None => None,
            }
        },
        None => None,
    }
}

/// The colour named after `pre` in `n`.
pub open spec fn colour_after(n: Seq<char>, pre: Seq<char>) -> Option<Seq<char>> {
    match rest_after(n, pre) {
        Some(r) => colour_value(r),
        None => None,
    }
}

/// The declaration `prop: v`.
pub open spec fn decl_text(prop: Seq<char>, v: Seq<char>) -> Seq<char> {
    prop + ": "@ + v
}

/// The declarations `p1: v` and `p2: v`.
pub open spec fn pair_decls(p1: Seq<char>, p2: Seq<char>, v: Seq<char>) -> Seq<Seq<char>> {
    seq![decl_text(p1, v), decl_text(p2, v)]
}

/// The CSS declarations of a utility, or `None` for an unknown one.
pub open spec fn utility_decls(n: Seq<char>) -> Option<Seq<Seq<char>>> {
    if fixed_decl(n) is Some {
        Some(seq![fixed_decl(n)->0])
    } else if step_after(n, "p-"@) is Some {
        Some(seq![decl_text("padding"@, spacing_text(step_after(n, "p-"@)->0))])
    } else if step_after(n, "px-"@) is Some {
        Some(pair_decls("padding-left"@, "padding-right"@, spacing_text(step_after(n, "px-"@)->0)))
    } else if step_after(n, "py-"@) is Some {
        Some(pair_decls("padding-top"@, "padding-bottom"@, spacing_text(step_after(n, "py-"@)->0)))
    } else if step_after(n, "m-"@) is Some {
        Some(seq![decl_text("margin"@, spacing_text(step_after(n, "m-"@)->0))])
    } else if step_after(n, "mx-"@) is Some {
        Some(pair_decls("margin-left"@, "margin-right"@, spacing_text(step_after(n, "mx-"@)->0)))
    } else if step_after(n, "my-"@) is Some {
        Some(pair_decls("margin-top"@, "margin-bottom"@, spacing_text(step_after(n, "my-"@)->0)))
    } else if size_after(n, "w-"@, "width"@) is Some {
        Some(seq![size_after(n, "w-"@, "width"@)->0])
    } else if size_after(n, "h-"@, "height"@) is Some {
        Some(seq![size_after(n, "h-"@, "height"@)->0])
    } else if colour_after(n, "text-"@) is Some {
        Some(seq![decl_text("color"@, colour_after(n, "text-"@)->0)])
    } else if colour_after(n, "bg-"@) is Some {
        Some(seq![decl_text("background-color"@, colour_after(n, "bg-"@)->0)])
    } else if colour_after(n, "border-"@) is Some {
        Some(seq![decl_text("border-color"@, colour_after(n, "border-"@)->0)])
    } else {
        None
    }
}

/// No utility with a fixed declaration has a name beginning with `p`.
proof fn lemma_fixed_not_p(n: Seq<char>)
    requires
        n.len() > 0,
        n[0] == 'p',
    ensures
        fixed_decl(n) is None,
{
    reveal_strlit("items-center");
    assert(n != "items-center"@) by {
        assert(n[0] != "items-center"@[0]);
    }
    reveal_strlit("items-start");
    assert(n != "items-start"@) by {
        assert(n[0] != "items-start"@[0]);
    }
    reveal_strlit("items-end");
    assert(n != "items-end"@) by {
        assert(n[0] != "items-end"@[0]);
    }
    reveal_strlit("items-stretch");
    assert(n != "items-stretch"@) by {
        assert(n[0] != "items-stretch"@[0]);
    }
    reveal_strlit("items-baseline");
    assert(n != "items-baseline"@) by {
        assert(n[0] != "items-baseline"@[0]);
    }
    reveal_strlit("justify-center");
    assert(n != "justify-center"@) by {
        assert(n[0] != "justify-center"@[0]);
    }
    reveal_strlit("justify-between");
    assert(n != "justify-between"@) by {
        assert(n[0] != "justify-between"@[0]);
    }
    reveal_strlit("justify-start");
    assert(n != "justify-start"@) by {
        assert(n[0] != "justify-start"@[0]);
    }
    reveal_strlit("justify-end");
    assert(n != "justify-end"@) by {
        assert(n[0] != "justify-end"@[0]);
    }
    reveal_strlit("justify-around");
    assert(n != "justify-around"@) by {
        assert(n[0] != "justify-around"@[0]);
    }
    reveal_strlit("justify-evenly");
    assert(n != "justify-evenly"@) by {
        assert(n[0] != "justify-evenly"@[0]);
    }
    reveal_strlit("self-auto");
    assert(n != "self-auto"@) by {
        assert(n[0] != "self-auto"@[0]);
    }
    reveal_strlit("self-start");
    assert(n != "self-start"@) by {
        assert(n[0] != "self-start"@[0]);
    }
    reveal_strlit("self-end");
    assert(n != "self-end"@) by {
        assert(n[0] != "self-end"@[0]);
    }
    reveal_strlit("self-center");
    assert(n != "self-center"@) by {
        assert(n[0] != "self-center"@[0]);
    }
    reveal_strlit("gap-1");
    assert(n != "gap-1"@) by {
        assert(n[0] != "gap-1"@[0]);
    }
    reveal_strlit("gap-2");
    assert(n != "gap-2"@) by {
        assert(n[0] != "gap-2"@[0]);
    }
    reveal_strlit("gap-4");
    assert(n != "gap-4"@) by {
        assert(n[0] != "gap-4"@[0]);
    }
    reveal_strlit("gap-6");
    assert(n != "gap-6"@) by {
        assert(n[0] != "gap-6"@[0]);
    }
    reveal_strlit("gap-8");
    assert(n != "gap-8"@) by {
        assert(n[0] != "gap-8"@[0]);
    }
    reveal_strlit("block");
    assert(n != "block"@) by {
        assert(n[0] != "block"@[0]);
    }
    reveal_strlit("inline");
    assert(n != "inline"@) by {
        assert(n[0] != "inline"@[0]);
    }
    reveal_strlit("inline-block");
    assert(n != "inline-block"@) by {
        assert(n[0] != "inline-block"@[0]);
    }
    reveal_strlit("flex");
    assert(n != "flex"@) by {
        assert(n[0] != "flex"@[0]);
    }
    reveal_strlit("inline-flex");
    assert(n != "inline-flex"@) by {
        assert(n[0] != "inline-flex"@[0]);
    }
    reveal_strlit("grid");
    assert(n != "grid"@) by {
        assert(n[0] != "grid"@[0]);
    }
    reveal_strlit("hidden");
    assert(n != "hidden"@) by {
        assert(n[0] != "hidden"@[0]);
    }
    reveal_strlit("relative");
    assert(n != "relative"@) by {
        assert(n[0] != "relative"@[0]);
    }
    reveal_strlit("absolute");
    assert(n != "absolute"@) by {
        assert(n[0] != "absolute"@[0]);
    }
    reveal_strlit("fixed");
    assert(n != "fixed"@) by {
        assert(n[0] != "fixed"@[0]);
    }
    reveal_strlit("static");
    assert(n != "static"@) by {
        assert(n[0] != "static"@[0]);
    }
    reveal_strlit("sticky");
    assert(n != "sticky"@) by {
        assert(n[0] != "sticky"@[0]);
    }
    reveal_strlit("flex-row");
    assert(n != "flex-row"@) by {
        assert(n[0] != "flex-row"@[0]);
    }
    reveal_strlit("flex-col");
    assert(n != "flex-col"@) by {
        assert(n[0] != "flex-col"@[0]);
    }
    reveal_strlit("flex-wrap");
    assert(n != "flex-wrap"@) by {
        assert(n[0] != "flex-wrap"@[0]);
    }
    reveal_strlit("flex-nowrap");
    assert(n != "flex-nowrap"@) by {
        assert(n[0] != "flex-nowrap"@[0]);
    }
    reveal_strlit("flex-1");
    assert(n != "flex-1"@) by {
        assert(n[0] != "flex-1"@[0]);
    }
    reveal_strlit("flex-auto");
    assert(n != "flex-auto"@) by {
        assert(n[0] != "flex-auto"@[0]);
    }
    reveal_strlit("flex-none");
    assert(n != "flex-none"@) by {
        assert(n[0] != "flex-none"@[0]);
    }
    reveal_strlit("italic");
    assert(n != "italic"@) by {
        assert(n[0] != "italic"@[0]);
    }
    reveal_strlit("font-bold");
    assert(n != "font-bold"@) by {
        assert(n[0] != "font-bold"@[0]);
    }
    reveal_strlit("font-semibold");
    assert(n != "font-semibold"@) by {
        assert(n[0] != "font-semibold"@[0]);
    }
    reveal_strlit("font-medium");
    assert(n != "font-medium"@) by {
        assert(n[0] != "font-medium"@[0]);
    }
    reveal_strlit("font-normal");
    assert(n != "font-normal"@) by {
        assert(n[0] != "font-normal"@[0]);
    }
    reveal_strlit("font-light");
    assert(n != "font-light"@) by {
        assert(n[0] != "font-light"@[0]);
    }
    reveal_strlit("text-center");
    assert(n != "text-center"@) by {
        assert(n[0] != "text-center"@[0]);
    }
    reveal_strlit("text-left");
    assert(n != "text-left"@) by {
        assert(n[0] != "text-left"@[0]);
    }
    reveal_strlit("text-right");
    assert(n != "text-right"@) by {
        assert(n[0] != "text-right"@[0]);
    }
    reveal_strlit("text-xs");
    assert(n != "text-xs"@) by {
        assert(n[0] != "text-xs"@[0]);
    }
    reveal_strlit("text-sm");
    assert(n != "text-sm"@) by {
        assert(n[0] != "text-sm"@[0]);
    }
    reveal_strlit("text-base");
    assert(n != "text-base"@) by {
        assert(n[0] != "text-base"@[0]);
    }
    reveal_strlit("text-lg");
    assert(n != "text-lg"@) by {
        assert(n[0] != "text-lg"@[0]);
    }
    reveal_strlit("text-xl");
    assert(n != "text-xl"@) by {
        assert(n[0] != "text-xl"@[0]);
    }
    reveal_strlit("text-2xl");
    assert(n != "text-2xl"@) by {
        assert(n[0] != "text-2xl"@[0]);
    }
    reveal_strlit("text-3xl");
    assert(n != "text-3xl"@) by {
        assert(n[0] != "text-3xl"@[0]);
    }
    reveal_strlit("text-4xl");
    assert(n != "text-4xl"@) by {
        assert(n[0] != "text-4xl"@[0]);
    }
    reveal_strlit("border");
    assert(n != "border"@) by {
        assert(n[0] != "border"@[0]);
    }
    reveal_strlit("border-0");
    assert(n != "border-0"@) by {
        assert(n[0] != "border-0"@[0]);
    }
    reveal_strlit("border-2");
    assert(n != "border-2"@) by {
        assert(n[0] != "border-2"@[0]);
    }
    reveal_strlit("rounded");
    assert(n != "rounded"@) by {
        assert(n[0] != "rounded"@[0]);
    }
    reveal_strlit("rounded-sm");
    assert(n != "rounded-sm"@) by {
        assert(n[0] != "rounded-sm"@[0]);
    }
    reveal_strlit("rounded-md");
    assert(n != "rounded-md"@) by {
        assert(n[0] != "rounded-md"@[0]);
    }
    reveal_strlit("rounded-lg");
    assert(n != "rounded-lg"@) by {
        assert(n[0] != "rounded-lg"@[0]);
    }
    reveal_strlit("rounded-xl");
    assert(n != "rounded-xl"@) by {
        assert(n[0] != "rounded-xl"@[0]);
    }
    reveal_strlit("rounded-2xl");
    assert(n != "rounded-2xl"@) by {
        assert(n[0] != "rounded-2xl"@[0]);
    }
    reveal_strlit("rounded-full");
    assert(n != "rounded-full"@) by {
        assert(n[0] != "rounded-full"@[0]);
    }
}

/// `py-n` pads the vertical axis and `px-n` the horizontal one: for every
/// spacing step `k` (written as the text `r`), `py-` gives exactly
/// `padding-top` and `padding-bottom`, and `px-` exactly `padding-left`
/// and `padding-right`, each set to the spacing of `k`.
pub proof fn lemma_padding_axes(r: Seq<char>, k: u32)
    requires
        spacing_step(r) == Some(k),
    ensures
        utility_decls("py-"@ + r) == Some(
            seq!["padding-top: "@ + spacing_text(k), "padding-bottom: "@ + spacing_text(k)],
        ),
        utility_decls("px-"@ + r) == Some(
            seq!["padding-left: "@ + spacing_text(k), "padding-right: "@ + spacing_text(k)],
        ),
{
    reveal_strlit("py-");
    reveal_strlit("px-");
    reveal_strlit("p-");
    reveal_strlit(": ");
    reveal_strlit("padding-top");
    reveal_strlit("padding-bottom");
    reveal_strlit("padding-left");
    reveal_strlit("padding-right");
    reveal_strlit("padding-top: ");
    reveal_strlit("padding-bottom: ");
    reveal_strlit("padding-left: ");
    reveal_strlit("padding-right: ");
    let v = spacing_text(k);
    let y = "py-"@ + r;
    let x = "px-"@ + r;
    lemma_fixed_not_p(y);
    lemma_fixed_not_p(x);
    assert(!crate::text::starts_with(y, "p-"@)) by {
        assert(y.subrange(0, 2)[1] == 'y');
    }
    assert(!crate::text::starts_with(x, "p-"@)) by {
        assert(x.subrange(0, 2)[1] == 'x');
    }
    assert(!crate::text::starts_with(y, "px-"@)) by {
        assert(y.subrange(0, 3)[1] == 'y');
    }
    assert(y.subrange(0, 3) =~= "py-"@);
    assert(y.subrange(3, y.len() as int) =~= r);
    assert(x.subrange(0, 3) =~= "px-"@);
    assert(x.subrange(3, x.len() as int) =~= r);
    assert(decl_text("padding-top"@, v) =~= "padding-top: "@ + v);
    assert(decl_text("padding-bottom"@, v) =~= "padding-bottom: "@ + v);
    assert(decl_text("padding-left"@, v) =~= "padding-left: "@ + v);
    assert(decl_text("padding-right"@, v) =~= "padding-right: "@ + v);
}

/// The text of a list of strings.
pub open spec fn texts(v: Seq<String>) -> Seq<Seq<char>> {
    v.map_values(|s: String| s@)
}

fn after_prefix(cs: &Vec<char>, pre: &str) -> (r: Option<usize>)
    ensures
        match r {
            Some(k) => rest_after(cs@, pre@) == Some(cs@.subrange(k as int, cs@.len() as int)) && k
                <= cs@.len(),
            None => rest_after(cs@, pre@) is None,
        },
{
    let pc = chars_of(pre);
    if chars_start_with(cs, &pc) {
        Some(pc.len())
    } else {
        None
    }
}

fn step_of(cs: &Vec<char>, pre: &str) -> (r: Option<u32>)
    ensures
        r == step_after(cs@, pre@),
{
    match after_prefix(cs, pre) {
        Some(k) => parse_spacing(cs, k),
        None => None,
    }
}

fn decl(prop: &str, value: &str) -> (r: String)
    ensures
        r@ == decl_text(prop@, value@),
{
    let mut d = to_string(prop);
    push_str(&mut d, ": ");
    push_str(&mut d, value);
    d
}

fn one(d: String) -> (r: Vec<String>)
    ensures
        texts(r@) == seq![d@],
{
    let mut v = Vec::new();
    v.push(d);
    assert(texts(v@) =~= seq![d@]);
    v
}

fn pair(p1: &str, p2: &str, value: &str) -> (r: Vec<String>)
    ensures
        texts(r@) == pair_decls(p1@, p2@, value@),
{
    let mut v = Vec::new();
    v.push(decl(p1, value));
    v.push(decl(p2, value));
    assert(texts(v@) =~= pair_decls(p1@, p2@, value@));
    v
}

fn size_of(cs: &Vec<char>, pre: &str, prop: &str) -> (r: Option<String>)
    ensures
        match r {
            Some(d) => size_after(cs@, pre@, prop@) == Some(d@),
            None => size_after(cs@, pre@, prop@) is None,
        },
{
    match after_prefix(cs, pre) {
        Some(k) => {
            let n = cs.len();
            let rest = string_from_range(cs, k, n);
            if str_eq(rest.as_str(), "full") {
                Some(decl(prop, "100%"))
            } else {
                match parse_u32_of(cs, k) {
                    Some(v) => {
                        let mut px = decimal_string(v as u64);
                        push_str(&mut px, "px");
                        Some(decl(prop, px.as_str()))
                    },
                    None => None,
                }
            }
        },
        None => None,
    }
}

fn colour_of(cs: &Vec<char>, pre: &str) -> (r: Option<String>)
    ensures
        match r {
            Some(c) => colour_after(cs@, pre@) == Some(c@),
            None => colour_after(cs@, pre@) is None,
        },
{
    match after_prefix(cs, pre) {
        Some(k) => {
            let n = cs.len();
            let rest = string_from_range(cs, k, n);
            parse_color(rest.as_str())
        },
        None => None,
    }
}

/// The CSS declarations of a utility (`p-4` → `padding: 1rem`), or `None`
/// for one it does not know.
pub fn utility_to_css(name: &str) -> (r: Option<Vec<String>>)
    ensures
        match r {
            Some(ds) => utility_decls(name@) == Some(texts(ds@)),
            None => utility_decls(name@) is None,
        },
{
    match fixed_utility(name) {
        Some(d) => {
            return Some(one(d));
        },
        None => {},
    }
    let cs = chars_of(name);
    match step_of(&cs, "p-") {
        Some(k) => {
            return Some(one(decl("padding", spacing_value(k).as_str())));
        },
        None => {},
    }
    match step_of(&cs, "px-") {
        Some(k) => {
            return Some(pair("padding-left", "padding-right", spacing_value(k).as_str()));
        },
        None => {},
    }
    match step_of(&cs, "py-") {
        Some(k) => {
            return Some(pair("padding-top", "padding-bottom", spacing_value(k).as_str()));
        },
        None => {},
    }
    match step_of(&cs, "m-") {
        Some(k) => {
            return Some(one(decl("margin", spacing_value(k).as_str())));
        },
        None => {},
    }
    match step_of(&cs, "mx-") {
        Some(k) => {
            return Some(pair("margin-left", "margin-right", spacing_value(k).as_str()));
        },
        None => {},
    }
    match step_of(&cs, "my-") {
        Some(k) => {
            return Some(pair("margin-top", "margin-bottom", spacing_value(k).as_str()));
        },
        None => {},
    }
    match size_of(&cs, "w-", "width") {
        Some(d) => {
            return Some(one(d));
        },
        None => {},
    }
    match size_of(&cs, "h-", "height") {
        Some(d) => {
            return Some(one(d));
        },
        None => {},
    }
    match colour_of(&cs, "text-") {
        Some(c) => {
            return Some(one(decl("color", c.as_str())));
        },
        None => {},
    }
    match colour_of(&cs, "bg-") {
        Some(c) => {
            return Some(one(decl("background-color", c.as_str())));
        },
        None => {},
    }
    match colour_of(&cs, "border-") {
        Some(c) => Some(one(decl("border-color", c.as_str()))),
        None => None,
    }
}

// ─── Style sheets ────────────────────────────────────────────────────────────

/// Each declaration on a line of its own: two spaces, the declaration, `;`.
pub open spec fn decl_lines(ds: Seq<Seq<char>>) -> Seq<char>
    decreases ds.len(),
{
    if ds.len() == 0 {
        seq![]
    } else {
        decl_lines(ds.drop_last()) + "  "@ + ds.last() + ";\n"@
    }
}

/// The pseudo-class of an optional state.
pub open spec fn pseudo_text(s: Option<StatePrefix>) -> Seq<char> {
    match s {
        Some(x) => pseudo_of(x),
        None => seq![],
    }
}

/// The rule of one token: `.selector:pseudo {`, its declarations, `}`;
/// nothing for an unknown utility.
pub open spec fn rule_text(t: TokenView) -> Seq<char> {
    match utility_decls(t.utility) {
        Some(ds) => "."@ + selector_text(t) + pseudo_text(t.state) + " {\n"@ + decl_lines(ds) + "}\n"@,
        None => seq![],
    }
}

/// The rules of the tokens with breakpoint `r` and state `s`, in order.
pub open spec fn group_text(ts: Seq<TokenView>, r: Option<ResponsivePrefix>, s: Option<StatePrefix>) -> Seq<char>
    decreases ts.len(),
{
    if ts.len() == 0 {
        seq![]
    } else {
        group_text(ts.drop_last(), r, s) + if ts.last().responsive == r && ts.last().state == s {
            rule_text(ts.last())
        } else {
            seq![]
        }
    }
}

/// Some token has breakpoint `r`.
pub open spec fn has_breakpoint(ts: Seq<TokenView>, r: Option<ResponsivePrefix>) -> bool {
    exists|i: int| 0 <= i < ts.len() && #[trigger] ts[i].responsive == r
}

/// The opening of a breakpoint's media query.
pub open spec fn open_text(r: Option<ResponsivePrefix>) -> Seq<char> {
    match r {
        Some(x) => "@media (min-width: "@ + decimal(min_width(x) as nat) + "px) {\n"@,
        None => seq![],
    }
}

/// The closing of a breakpoint's media query.
pub open spec fn close_text(r: Option<ResponsivePrefix>) -> Seq<char> {
    match r {
        Some(_) => "}\n"@,
        None => seq![],
    }
}

/// The states in the order their rules are written.
pub open spec fn state_order() -> Seq<Option<StatePrefix>> {
    seq![
        None,
        Some(StatePrefix::Hover),
        Some(StatePrefix::Focus),
        Some(StatePrefix::Active),
        Some(StatePrefix::Disabled),
    ]
}

/// The breakpoints in the order their rules are written.
pub open spec fn breakpoint_order() -> Seq<Option<ResponsivePrefix>> {
    seq![
        None,
        Some(ResponsivePrefix::Sm),
        Some(ResponsivePrefix::Md),
        Some(ResponsivePrefix::Lg),
        Some(ResponsivePrefix::Xl),
        Some(ResponsivePrefix::TwoXl),
    ]
}

/// The rules of breakpoint `r`, state by state from the `k`-th state on.
pub open spec fn states_text(ts: Seq<TokenView>, r: Option<ResponsivePrefix>, k: int) -> Seq<char>
    decreases 5 - k,
{
    if k < 0 || k >= 5 {
        seq![]
    } else {
        group_text(ts, r, state_order()[k]) + states_text(ts, r, k + 1)
    }
}

/// The block of breakpoint `r`: its media query around its rules, present
/// when some token has that breakpoint.
pub open spec fn media_text(ts: Seq<TokenView>, r: Option<ResponsivePrefix>) -> Seq<char> {
    if has_breakpoint(ts, r) {
        open_text(r) + states_text(ts, r, 0) + close_text(r)
    } else {
        seq![]
    }
}

/// The blocks of the breakpoints from the `k`-th on.
pub open spec fn blocks_text(ts: Seq<TokenView>, k: int) -> Seq<char>
    decreases 6 - k,
{
    if k < 0 || k >= 6 {
        seq![]
    } else {
        media_text(ts, breakpoint_order()[k]) + blocks_text(ts, k + 1)
    }
}

/// The style sheet of a list of tokens: a comment line, then the blocks of
/// the breakpoints in order (none first, then `sm` up to `2xl`); within a
/// block, the states in order (none, `hover`, `focus`, `active`,
/// `disabled`); within a state, the tokens in the order given.
pub open spec fn css_text(ts: Seq<TokenView>) -> Seq<char> {
    "/* kungfu-css bundle \u{2014} auto-generated */\n"@ + blocks_text(ts, 0)
}

/// The rules of the tokens one after another.
pub open spec fn rules_text(ts: Seq<TokenView>) -> Seq<char>
    decreases ts.len(),
{
    if ts.len() == 0 {
        seq![]
    } else {
        rules_text(ts.drop_last()) + rule_text(ts.last())
    }
}

/// The tokens with breakpoint `r` and state `s`, in the order given.
pub open spec fn in_group(ts: Seq<TokenView>, r: Option<ResponsivePrefix>, s: Option<StatePrefix>) -> Seq<
    TokenView,
> {
    ts.filter(|t: TokenView| t.responsive == r && t.state == s)
}

/// A group's rules are the rules of exactly the tokens in that group, in
/// the order given.
#[verifier::spinoff_prover]
#[verifier::rlimit(30)]
pub proof fn lemma_group_rules(ts: Seq<TokenView>, r: Option<ResponsivePrefix>, s: Option<StatePrefix>)
    ensures
        group_text(ts, r, s) == rules_text(in_group(ts, r, s)),
    decreases ts.len(),
{
    let f = |t: TokenView| t.responsive == r && t.state == s;
    reveal(Seq::filter);
    if ts.len() == 0 {
        assert(in_group(ts, r, s) =~= Seq::<TokenView>::empty());
    } else {
        lemma_group_rules(ts.drop_last(), r, s);
        let sub = ts.drop_last().filter(f);
        assert(in_group(ts.drop_last(), r, s) == sub);
        assert(in_group(ts, r, s) == ts.filter(f));
        if f(ts.last()) {
            assert(ts.filter(f) == sub.push(ts.last()));
            assert(sub.push(ts.last()).drop_last() =~= sub);
            assert(rules_text(sub.push(ts.last())) == rules_text(sub) + rule_text(ts.last()));
        } else {
            assert(ts.filter(f) == sub);
            assert(group_text(ts, r, s) =~= group_text(ts.drop_last(), r, s));
        }
    }
}

/// The state groups of a breakpoint block, in order.
#[verifier::spinoff_prover]
#[verifier::rlimit(30)]
proof fn lemma_states_in_order(ts: Seq<TokenView>, r: Option<ResponsivePrefix>)
    ensures
        states_text(ts, r, 0) == group_text(ts, r, None) + group_text(ts, r, Some(StatePrefix::Hover))
            + group_text(ts, r, Some(StatePrefix::Focus)) + group_text(ts, r, Some(StatePrefix::Active))
            + group_text(ts, r, Some(StatePrefix::Disabled)),
{
    let o = state_order();
    assert(states_text(ts, r, 5) == Seq::<char>::empty());
    assert(states_text(ts, r, 4) == group_text(ts, r, o[4]) + states_text(ts, r, 5));
    assert(states_text(ts, r, 3) == group_text(ts, r, o[3]) + states_text(ts, r, 4));
    assert(states_text(ts, r, 2) == group_text(ts, r, o[2]) + states_text(ts, r, 3));
    assert(states_text(ts, r, 1) == group_text(ts, r, o[1]) + states_text(ts, r, 2));
    assert(states_text(ts, r, 0) == group_text(ts, r, o[0]) + states_text(ts, r, 1));
    assert(states_text(ts, r, 0) =~= group_text(ts, r, None) + group_text(ts, r, Some(StatePrefix::Hover))
        + group_text(ts, r, Some(StatePrefix::Focus)) + group_text(ts, r, Some(StatePrefix::Active))
        + group_text(ts, r, Some(StatePrefix::Disabled)));
}

/// The breakpoint blocks, in order.
#[verifier::spinoff_prover]
#[verifier::rlimit(30)]
proof fn lemma_blocks_in_order(ts: Seq<TokenView>)
    ensures
        blocks_text(ts, 0) == media_text(ts, None) + media_text(ts, Some(ResponsivePrefix::Sm))
            + media_text(ts, Some(ResponsivePrefix::Md)) + media_text(ts, Some(ResponsivePrefix::Lg))
            + media_text(ts, Some(ResponsivePrefix::Xl)) + media_text(ts, Some(ResponsivePrefix::TwoXl)),
{
    let o = breakpoint_order();
    assert(o[0] == None::<ResponsivePrefix> && o[1] == Some(ResponsivePrefix::Sm) && o[2] == Some(
        ResponsivePrefix::Md,
    ) && o[3] == Some(ResponsivePrefix::Lg) && o[4] == Some(ResponsivePrefix::Xl) && o[5] == Some(
        ResponsivePrefix::TwoXl,
    ));
    let m0 = media_text(ts, None);
    let m1 = media_text(ts, Some(ResponsivePrefix::Sm));
    let m2 = media_text(ts, Some(ResponsivePrefix::Md));
    let m3 = media_text(ts, Some(ResponsivePrefix::Lg));
    let m4 = media_text(ts, Some(ResponsivePrefix::Xl));
    let m5 = media_text(ts, Some(ResponsivePrefix::TwoXl));
    assert(blocks_text(ts, 6) == Seq::<char>::empty());
    assert(blocks_text(ts, 5) == m5 + blocks_text(ts, 6));
    assert(blocks_text(ts, 4) == m4 + blocks_text(ts, 5));
    assert(blocks_text(ts, 3) == m3 + blocks_text(ts, 4));
    assert(blocks_text(ts, 2) == m2 + blocks_text(ts, 3));
    assert(blocks_text(ts, 1) == m1 + blocks_text(ts, 2));
    assert(blocks_text(ts, 0) == m0 + blocks_text(ts, 1));
    assert(blocks_text(ts, 0) =~= m0 + m1 + m2 + m3 + m4 + m5);
}

/// A token has a rule exactly when its utility is recognised.
pub proof fn lemma_rule_present(t: TokenView)
    ensures
        rule_text(t).len() == 0 <==> utility_decls(t.utility) is None,
{
    reveal_strlit(".");
}

/// The layout of a style sheet: the header comment line, then the block of
/// each breakpoint in turn, no breakpoint first and then `sm` to `2xl`,
/// whose minimum widths increase. What a block holds is stated by
/// `lemma_media_block`, what a group holds by `lemma_group_rules`.
#[verifier::spinoff_prover]
#[verifier::rlimit(30)]
pub proof fn lemma_css_layout(ts: Seq<TokenView>)
    ensures
        css_text(ts) == "/* kungfu-css bundle \u{2014} auto-generated */\n"@ + media_text(ts, None)
            + media_text(ts, Some(ResponsivePrefix::Sm)) + media_text(ts, Some(ResponsivePrefix::Md))
            + media_text(ts, Some(ResponsivePrefix::Lg)) + media_text(ts, Some(ResponsivePrefix::Xl))
            + media_text(ts, Some(ResponsivePrefix::TwoXl)),
        min_width(ResponsivePrefix::Sm) < min_width(ResponsivePrefix::Md) < min_width(
            ResponsivePrefix::Lg,
        ) < min_width(ResponsivePrefix::Xl) < min_width(ResponsivePrefix::TwoXl),
{
    lemma_blocks_in_order(ts);
}

/// The block of a breakpoint is present exactly when some token has that
/// breakpoint; it opens the media query (nothing for no breakpoint), holds
/// the state groups in order (no state, `hover`, `focus`, `active`,
/// `disabled`) and closes the query.
#[verifier::spinoff_prover]
#[verifier::rlimit(30)]
pub proof fn lemma_media_block(ts: Seq<TokenView>, r: Option<ResponsivePrefix>)
    ensures
        !has_breakpoint(ts, r) ==> media_text(ts, r).len() == 0,
        has_breakpoint(ts, r) ==> media_text(ts, r) == open_text(r) + group_text(ts, r, None)
            + group_text(ts, r, Some(StatePrefix::Hover)) + group_text(ts, r, Some(StatePrefix::Focus))
            + group_text(ts, r, Some(StatePrefix::Active)) + group_text(ts, r, Some(StatePrefix::Disabled))
            + close_text(r),
{
    lemma_states_in_order(ts, r);
}

/// The layout of `emit_css`'s output, whole: the header comment line, then
/// the block of each breakpoint in turn (no breakpoint first, then `sm` to
/// `2xl`, whose minimum widths increase); a block is there exactly when
/// some token has its breakpoint, opens its media query, holds its state
/// groups in order (no state, `hover`, `focus`, `active`, `disabled`) and
/// closes the query; each group holds the rules of exactly the tokens with
/// that breakpoint and state, in the order given; and a token has a rule
/// exactly when its utility is recognised.
#[verifier::spinoff_prover]
#[verifier::rlimit(100)]
pub proof fn lemma_emit_css_layout(ts: Seq<TokenView>)
    ensures
        css_text(ts) == "/* kungfu-css bundle \u{2014} auto-generated */\n"@ + media_text(ts, None)
            + media_text(ts, Some(ResponsivePrefix::Sm)) + media_text(ts, Some(ResponsivePrefix::Md))
            + media_text(ts, Some(ResponsivePrefix::Lg)) + media_text(ts, Some(ResponsivePrefix::Xl))
            + media_text(ts, Some(ResponsivePrefix::TwoXl)),
        min_width(ResponsivePrefix::Sm) < min_width(ResponsivePrefix::Md) < min_width(
            ResponsivePrefix::Lg,
        ) < min_width(ResponsivePrefix::Xl) < min_width(ResponsivePrefix::TwoXl),
        forall|r: Option<ResponsivePrefix>|
            !has_breakpoint(ts, r) ==> (#[trigger] media_text(ts, r)).len() == 0,
        forall|r: Option<ResponsivePrefix>|
            has_breakpoint(ts, r) ==> #[trigger] media_text(ts, r) == open_text(r) + group_text(
                ts,
                r,
                None,
            ) + group_text(ts, r, Some(StatePrefix::Hover)) + group_text(ts, r, Some(StatePrefix::Focus))
                + group_text(ts, r, Some(StatePrefix::Active)) + group_text(
                ts,
                r,
                Some(StatePrefix::Disabled),
            ) + close_text(r),
        forall|r: Option<ResponsivePrefix>, s: Option<StatePrefix>|
            #[trigger] group_text(ts, r, s) == rules_text(in_group(ts, r, s)),
        forall|t: TokenView| (#[trigger] rule_text(t)).len() == 0 <==> utility_decls(t.utility) is None,
{
    lemma_css_layout(ts);
    assert forall|r: Option<ResponsivePrefix>|
        !has_breakpoint(ts, r) implies (#[trigger] media_text(ts, r)).len() == 0 by {
        lemma_media_block(ts, r);
    }
    assert forall|r: Option<ResponsivePrefix>| has_breakpoint(ts, r) implies #[trigger] media_text(ts, r)
        == open_text(r) + group_text(ts, r, None) + group_text(ts, r, Some(StatePrefix::Hover))
        + group_text(ts, r, Some(StatePrefix::Focus)) + group_text(ts, r, Some(StatePrefix::Active))
        + group_text(ts, r, Some(StatePrefix::Disabled)) + close_text(r) by {
        lemma_media_block(ts, r);
    }
    assert forall|r: Option<ResponsivePrefix>, s: Option<StatePrefix>|
        #[trigger] group_text(ts, r, s) == rules_text(in_group(ts, r, s)) by {
        lemma_group_rules(ts, r, s);
    }
    assert forall|t: TokenView| (#[trigger] rule_text(t)).len() == 0 <==> utility_decls(t.utility) is None by {
        lemma_rule_present(t);
    }
}

fn emit_rule(t: &ClassToken, out: &mut String)
    ensures
        final(out)@ == old(out)@ + rule_text(t@),
{
    match utility_to_css(t.utility.as_str()) {
        None => {
            assert(old(out)@ + rule_text(t@) =~= old(out)@);
        },
        Some(ds) => {
            let ghost start = out@;
            push_str(out, ".");
            push_str(out, t.selector().as_str());
            match t.state {
                Some(s) => push_str(out, s.css_pseudo()),
                None => {},
            }
            push_str(out, " {\n");
            let ghost head = out@;
            let mut i: usize = 0;
            while i < ds.len()
                invariant
                    i <= ds@.len(),
                    out@ == head + decl_lines(texts(ds@).subrange(0, i as int)),
                decreases ds.len() - i,
            {
                let ghost before = out@;
                push_str(out, "  ");
                push_str(out, ds[i].as_str());
                push_str(out, ";\n");
                proof {
                    let pre = texts(ds@).subrange(0, i + 1);
                    assert(pre.drop_last() =~= texts(ds@).subrange(0, i as int));
                    assert(pre.last() == ds@[i as int]@);
                    assert(out@ =~= head + decl_lines(pre));
                }
                i = i + 1;
            }
            assert(texts(ds@).subrange(0, ds@.len() as int) =~= texts(ds@));
            push_str(out, "}\n");
            assert(out@ =~= old(out)@ + rule_text(t@));
        },
    }
}

fn same_breakpoint(a: Option<ResponsivePrefix>, b: Option<ResponsivePrefix>) -> (r: bool)
    ensures
        r == (a == b),
{
    match (a, b) {
        (None, None) => true,
        (Some(x), Some(y)) => x == y,
        _ => false,
    }
}

fn same_state(a: Option<StatePrefix>, b: Option<StatePrefix>) -> (r: bool)
    ensures
        r == (a == b),
{
    match (a, b) {
        (None, None) => true,
        (Some(x), Some(y)) => x == y,
        _ => false,
    }
}

fn emit_group(tokens: &[ClassToken], r: Option<ResponsivePrefix>, s: Option<StatePrefix>, out: &mut String)
    ensures
        final(out)@ == old(out)@ + group_text(tokens_view(tokens@), r, s),
{
    let ghost ts = tokens_view(tokens@);
    let ghost start = out@;
    let mut i: usize = 0;
    while i < tokens.len()
        invariant
            i <= tokens@.len(),
            ts == tokens_view(tokens@),
            out@ == start + group_text(ts.subrange(0, i as int), r, s),
        decreases tokens.len() - i,
    {
        let ghost before = out@;
        let t = &tokens[i];
        if same_breakpoint(t.responsive, r) && same_state(t.state, s) {
            emit_rule(t, out);
        }
        proof {
            let pre = ts.subrange(0, i + 1);
            assert(pre.drop_last() =~= ts.subrange(0, i as int));
            assert(pre.last() == tokens@[i as int]@);
            assert(out@ =~= start + group_text(pre, r, s));
        }
        i = i + 1;
    }
    assert(ts.subrange(0, ts.len() as int) =~= ts);
}

fn emit_media(tokens: &[ClassToken], r: Option<ResponsivePrefix>, out: &mut String)
    ensures
        final(out)@ == old(out)@ + media_text(tokens_view(tokens@), r),
{
    let ghost ts = tokens_view(tokens@);
    let mut present = false;
    let mut i: usize = 0;
    while i < tokens.len()
        invariant
            i <= tokens@.len(),
            ts == tokens_view(tokens@),
            present == exists|j: int| 0 <= j < i && #[trigger] ts[j].responsive == r,
        decreases tokens.len() - i,
    {
        if same_breakpoint(tokens[i].responsive, r) {
            present = true;
        }
        assert(ts[i as int].responsive == tokens@[i as int].responsive);
        i = i + 1;
    }
    if !present {
        assert(old(out)@ + media_text(ts, r) =~= old(out)@);
        return;
    }
    let ghost start = out@;
    match r {
        Some(x) => {
            push_str(out, "@media (min-width: ");
            push_str(out, decimal_string(x.min_width_px() as u64).as_str());
            push_str(out, "px) {\n");
        },
        None => {},
    }
    assert(out@ =~= start + open_text(r));
    let ghost opened = out@;
    let states = [
        None,
        Some(StatePrefix::Hover),
        Some(StatePrefix::Focus),
        Some(StatePrefix::Active),
        Some(StatePrefix::Disabled),
    ];
    assert(states@ =~= state_order());
    let mut k: usize = 0;
    assert(opened + states_text(ts, r, 0) =~= opened + states_text(ts, r, 0));
    while k < 5
        invariant
            k <= 5,
            states@ == state_order(),
            ts == tokens_view(tokens@),
            out@ + states_text(ts, r, k as int) == opened + states_text(ts, r, 0),
        decreases 5 - k,
    {
        let ghost before = out@;
        emit_group(tokens, r, states[k], out);
        assert(states_text(ts, r, k as int) == group_text(ts, r, state_order()[k as int])
            + states_text(ts, r, k + 1));
        assert(out@ + states_text(ts, r, k + 1) =~= before + states_text(ts, r, k as int));
        k = k + 1;
    }
    assert(states_text(ts, r, 5) =~= Seq::<char>::empty());
    assert(out@ =~= opened + states_text(ts, r, 0));
    match r {
        Some(_) => push_str(out, "}\n"),
        None => {},
    }
    assert(out@ =~= old(out)@ + media_text(ts, r));
}

/// The style sheet of a list of class tokens. The output depends only on
/// the tokens, so repeated builds give identical CSS.
pub fn emit_css(tokens: &[ClassToken]) -> (r: String)
    ensures
        r@ == css_text(tokens_view(tokens@)),
{
    let ghost ts = tokens_view(tokens@);
    let mut out = to_string("/* kungfu-css bundle \u{2014} auto-generated */\n");
    let ghost head = out@;
    let order = [
        None,
        Some(ResponsivePrefix::Sm),
        Some(ResponsivePrefix::Md),
        Some(ResponsivePrefix::Lg),
        Some(ResponsivePrefix::Xl),
        Some(ResponsivePrefix::TwoXl),
    ];
    assert(order@ =~= breakpoint_order());
    let mut k: usize = 0;
    while k < 6
        invariant
            k <= 6,
            order@ == breakpoint_order(),
            ts == tokens_view(tokens@),
            out@ + blocks_text(ts, k as int) == head + blocks_text(ts, 0),
        decreases 6 - k,
    {
        let ghost before = out@;
        emit_media(tokens, order[k], &mut out);
        assert(blocks_text(ts, k as int) == media_text(ts, breakpoint_order()[k as int])
            + blocks_text(ts, k + 1));
        assert(out@ + blocks_text(ts, k + 1) =~= before + blocks_text(ts, k as int));
        k = k + 1;
    }
    assert(blocks_text(ts, 6) =~= Seq::<char>::empty());
    assert(out@ =~= head + blocks_text(ts, 0));
    out
}

} // verus!

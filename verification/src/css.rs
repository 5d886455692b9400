//! A utility-class CSS engine: class strings such as `flex p-4
//! md:hover:bg-blue-500` become CSS rules, grouped under media queries for
//! responsive prefixes.
pub mod parser;
pub mod emitter;
pub mod scanner;

use vstd::prelude::*;
use crate::css::emitter::{
    blocks_text, breakpoint_order, close_text, css_text, decl_lines, emit_css, group_text, has_breakpoint,
    media_text, open_text, pseudo_text, rule_text, state_order, states_text, utility_decls,
};
use crate::css::parser::{
    class_char, class_state, class_words, colon_free, escape_colons, lemma_selector_reproduces_class,
    parse_class_string, tokens_of, tokens_view, written_class, ClassToken, ResponsivePrefix, StatePrefix,
    TokenView,
};
use crate::text::{contains, find, lemma_find_from, matches_at, strings_view};

verus! {

/// The style sheet of one class string.
pub fn compile_classes(input: &str) -> (r: String)
    ensures
        r@ == css_text(tokens_of(class_words(input@))),
{
    let tokens = parse_class_string(input);
    emit_css(tokens.as_slice())
}

/// Where a breakpoint stands in the order of blocks.
pub open spec fn breakpoint_index(r: Option<ResponsivePrefix>) -> int {
    match r {
        None => 0,
        Some(ResponsivePrefix::Sm) => 1,
        Some(ResponsivePrefix::Md) => 2,
        Some(ResponsivePrefix::Lg) => 3,
        Some(ResponsivePrefix::Xl) => 4,
        Some(ResponsivePrefix::TwoXl) => 5,
    }
}

/// Where a state stands in the order of groups.
pub open spec fn state_index(s: Option<StatePrefix>) -> int {
    match s {
        None => 0,
        Some(StatePrefix::Hover) => 1,
        Some(StatePrefix::Focus) => 2,
        Some(StatePrefix::Active) => 3,
        Some(StatePrefix::Disabled) => 4,
    }
}

proof fn lemma_blocks_prefix(ts: Seq<TokenView>, j: int) -> (p: Seq<char>)
    requires
        0 <= j <= 6,
    ensures
        blocks_text(ts, 0) == p + blocks_text(ts, j),
    decreases j,
{
    if j == 0 {
        assert(blocks_text(ts, 0) =~= Seq::<char>::empty() + blocks_text(ts, 0));
        Seq::<char>::empty()
    } else {
        let q = lemma_blocks_prefix(ts, j - 1);
        q + media_text(ts, breakpoint_order()[j - 1])
    }
}

proof fn lemma_states_prefix(ts: Seq<TokenView>, r: Option<ResponsivePrefix>, k: int) -> (p: Seq<char>)
    requires
        0 <= k <= 5,
    ensures
        states_text(ts, r, 0) == p + states_text(ts, r, k),
    decreases k,
{
    if k == 0 {
        assert(states_text(ts, r, 0) =~= Seq::<char>::empty() + states_text(ts, r, 0));
        Seq::<char>::empty()
    } else {
        let q = lemma_states_prefix(ts, r, k - 1);
        q + group_text(ts, r, state_order()[k - 1])
    }
}

/// A class run of class characters only is one word.
proof fn lemma_class_state_run(s: Seq<char>)
    requires
        forall|i: int| 0 <= i < s.len() ==> class_char(s[i]),
    ensures
        class_state(s) == (Seq::<Seq<char>>::empty(), s),
    decreases s.len(),
{
    if s.len() > 0 {
        lemma_class_state_run(s.drop_last());
        assert(s.drop_last().push(s.last()) =~= s);
    } else {
        assert(s =~= Seq::<char>::empty());
    }
}

#[verifier::spinoff_prover]
#[verifier::rlimit(30)]
proof fn lemma_blocks_around(ts: Seq<TokenView>, r: Option<ResponsivePrefix>) -> (pq: (Seq<char>, Seq<char>))
    ensures
        blocks_text(ts, 0) == pq.0 + media_text(ts, r) + pq.1,
{
    let j = breakpoint_index(r);
    assert(0 <= j < 6);
    assert(breakpoint_order()[j] == r);
    let p = lemma_blocks_prefix(ts, j);
    assert(blocks_text(ts, j) == media_text(ts, r) + blocks_text(ts, j + 1));
    assert(blocks_text(ts, 0) =~= p + media_text(ts, r) + blocks_text(ts, j + 1));
    (p, blocks_text(ts, j + 1))
}

#[verifier::spinoff_prover]
#[verifier::rlimit(30)]
proof fn lemma_states_around(ts: Seq<TokenView>, r: Option<ResponsivePrefix>, s: Option<StatePrefix>) -> (pq: (
    Seq<char>,
    Seq<char>,
))
    ensures
        states_text(ts, r, 0) == pq.0 + group_text(ts, r, s) + pq.1,
{
    let k = state_index(s);
    assert(0 <= k < 5);
    assert(state_order()[k] == s);
    let p = lemma_states_prefix(ts, r, k);
    assert(states_text(ts, r, k) == group_text(ts, r, s) + states_text(ts, r, k + 1));
    assert(states_text(ts, r, 0) =~= p + group_text(ts, r, s) + states_text(ts, r, k + 1));
    (p, states_text(ts, r, k + 1))
}

/// The style sheet holds each group of a breakpoint that some token has.
#[verifier::spinoff_prover]
#[verifier::rlimit(30)]
proof fn lemma_sheet_around_group(ts: Seq<TokenView>, r: Option<ResponsivePrefix>, s: Option<StatePrefix>) -> (xy: (
    Seq<char>,
    Seq<char>,
))
    requires
        has_breakpoint(ts, r),
    ensures
        css_text(ts) == xy.0 + group_text(ts, r, s) + xy.1,
{
    let (p1, q1) = lemma_blocks_around(ts, r);
    let (p2, q2) = lemma_states_around(ts, r, s);
    let head = "/* kungfu-css bundle \u{2014} auto-generated */\n"@;
    let g = group_text(ts, r, s);
    assert(media_text(ts, r) == open_text(r) + states_text(ts, r, 0) + close_text(r));
    let x = head + p1 + open_text(r) + p2;
    let y = q2 + close_text(r) + q1;
    assert(css_text(ts) =~= x + g + y);
    (x, y)
}

/// The only group of a single token is its rule.
proof fn lemma_single_group(t: TokenView)
    ensures
        group_text(seq![t], t.responsive, t.state) == rule_text(t),
{
    let ts = seq![t];
    assert(ts.drop_last() =~= Seq::<TokenView>::empty());
    assert(ts.last() == t);
    assert(group_text(Seq::<TokenView>::empty(), t.responsive, t.state) =~= Seq::<char>::empty());
    assert(group_text(ts, t.responsive, t.state) =~= rule_text(t));
}

/// A class written as an optional breakpoint, an optional state and a
/// recognised utility without `:`, all of whose characters are class
/// characters, compiles to a style sheet that holds a rule for `.` and the
/// class as written with each `:` escaped.
#[verifier::spinoff_prover]
#[verifier::rlimit(30)]
pub proof fn lemma_compiled_class_has_selector(r: Option<ResponsivePrefix>, s: Option<StatePrefix>, u: Seq<char>)
    requires
        u.len() > 0,
        colon_free(u),
        utility_decls(u) is Some,
        forall|i: int|
            0 <= i < written_class(r, s, u).len() ==> class_char(#[trigger] written_class(r, s, u)[i]),
    ensures
        contains(css_text(tokens_of(class_words(written_class(r, s, u)))), "."@ + escape_colons(
            written_class(r, s, u),
        )),
{
    let c = written_class(r, s, u);
    let t = TokenView { responsive: r, state: s, utility: u };
    lemma_selector_reproduces_class(r, s, u);
    lemma_class_state_run(c);
    assert(class_words(c) == seq![c]);
    let ts = seq![t];
    assert(seq![c].drop_first() =~= Seq::<Seq<char>>::empty());
    assert(tokens_of(Seq::<Seq<char>>::empty()) =~= Seq::<TokenView>::empty());
    assert(tokens_of(seq![c]) =~= ts);
    assert(ts[0].responsive == r);
    assert(has_breakpoint(ts, r));
    let pat = "."@ + escape_colons(c);
    let ds = utility_decls(u)->0;
    let rest = pseudo_text(s) + " {\n"@ + decl_lines(ds) + "}\n"@;
    assert(rule_text(t) =~= pat + rest);
    lemma_single_group(t);
    let (x, y) = lemma_sheet_around_group(ts, r, s);
    let css = css_text(ts);
    assert(css =~= x + pat + (rest + y));
    assert(css.subrange(x.len() as int, (x.len() + pat.len()) as int) =~= pat);
    reveal_strlit(".");
    assert(pat.len() > 0);
    assert(matches_at(css, pat, x.len() as int));
    lemma_find_from(css, pat, 0);
    assert(find(css, pat) is Some);
    assert(tokens_of(class_words(c)) == ts);
}

/// The tokens of each class string in turn.
pub open spec fn tokens_of_all(classes: Seq<Seq<char>>) -> Seq<TokenView>
    decreases classes.len(),
{
    if classes.len() == 0 {
        seq![]
    } else {
        tokens_of_all(classes.drop_last()) + tokens_of(class_words(classes.last()))
    }
}

/// The style sheet of the classes found in a project's files (as the
/// scanner lists them).
pub fn compile_scanned(classes: &Vec<String>) -> (r: String)
    ensures
        r@ == css_text(tokens_of_all(strings_view(classes@))),
{
    let ghost cv = strings_view(classes@);
    let mut tokens: Vec<ClassToken> = Vec::new();
    let mut i: usize = 0;
    while i < classes.len()
        invariant
            i <= classes@.len(),
            cv == strings_view(classes@),
            tokens_view(tokens@) == tokens_of_all(cv.subrange(0, i as int)),
        decreases classes.len() - i,
    {
        let mut more = parse_class_string(classes[i].as_str());
        let ghost before = tokens_view(tokens@);
        let ghost added = tokens_view(more@);
        tokens.append(&mut more);
        assert(tokens_view(tokens@) =~= before + added);
        assert(cv.subrange(0, i + 1).drop_last() =~= cv.subrange(0, i as int));
        i = i + 1;
    }
    assert(cv.subrange(0, cv.len() as int) =~= cv);
    emit_css(tokens.as_slice())
}

} // verus!

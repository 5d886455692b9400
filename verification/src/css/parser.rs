//! Class strings: `flex p-4 md:hover:bg-blue-500` as tokens, each with an
//! optional responsive prefix, an optional state prefix and the utility.
use vstd::prelude::*;
use regex::Regex;
use crate::css::emitter::{utility_decls, utility_to_css};
use crate::text::{
    chars_of, find, lemma_find_from, matches_at, push_str, split_chars, split_on, str_eq, strings_view,
    to_string,
};

verus! {

/// A breakpoint prefix (`sm:`, `md:`, ...).
#[derive(Debug, Clone, Copy, PartialEq, Eq, Structural, Hash, PartialOrd, Ord)]
pub enum ResponsivePrefix {
    Sm,
    Md,
    Lg,
    Xl,
    TwoXl,
}

/// The minimum viewport width of a breakpoint, in pixels.
pub open spec fn min_width(r: ResponsivePrefix) -> u32 {
    match r {
        ResponsivePrefix::Sm => 640,
        ResponsivePrefix::Md => 768,
        ResponsivePrefix::Lg => 1024,
        ResponsivePrefix::Xl => 1280,
        ResponsivePrefix::TwoXl => 1536,
    }
}

/// The prefix text of a breakpoint.
pub open spec fn responsive_name(r: ResponsivePrefix) -> Seq<char> {
    match r {
        ResponsivePrefix::Sm => "sm"@,
        ResponsivePrefix::Md => "md"@,
        ResponsivePrefix::Lg => "lg"@,
        ResponsivePrefix::Xl => "xl"@,
        ResponsivePrefix::TwoXl => "2xl"@,
    }
}

impl ResponsivePrefix {
    /// The minimum viewport width, in pixels.
    pub fn min_width_px(&self) -> (r: u32)
        ensures
            r == min_width(*self),
    {
        match self {
            ResponsivePrefix::Sm => 640,
            ResponsivePrefix::Md => 768,
            ResponsivePrefix::Lg => 1024,
            ResponsivePrefix::Xl => 1280,
            ResponsivePrefix::TwoXl => 1536,
        }
    }

    /// The prefix text: `sm`, `md`, `lg`, `xl`, `2xl`.
    pub fn as_str(&self) -> (r: &'static str)
        ensures
            r@ == responsive_name(*self),
    {
        match self {
            ResponsivePrefix::Sm => "sm",
            ResponsivePrefix::Md => "md",
            ResponsivePrefix::Lg => "lg",
            ResponsivePrefix::Xl => "xl",
            ResponsivePrefix::TwoXl => "2xl",
        }
    }
}

/// A state prefix (`hover:`, `focus:`, ...).
#[derive(Debug, Clone, Copy, PartialEq, Eq, Structural, Hash, PartialOrd, Ord)]
pub enum StatePrefix {
    Hover,
    Focus,
    Active,
    Disabled,
}

/// The CSS pseudo-class of a state.
pub open spec fn pseudo_of(s: StatePrefix) -> Seq<char> {
    match s {
        StatePrefix::Hover => ":hover"@,
        StatePrefix::Focus => ":focus"@,
        StatePrefix::Active => ":active"@,
        StatePrefix::Disabled => ":disabled"@,
    }
}

/// The prefix text of a state.
pub open spec fn state_name(s: StatePrefix) -> Seq<char> {
    match s {
        StatePrefix::Hover => "hover"@,
        StatePrefix::Focus => "focus"@,
        StatePrefix::Active => "active"@,
        StatePrefix::Disabled => "disabled"@,
    }
}

impl StatePrefix {
    /// The CSS pseudo-class: `:hover`, `:focus`, `:active`, `:disabled`.
    pub fn css_pseudo(&self) -> (r: &'static str)
        ensures
            r@ == pseudo_of(*self),
    {
        match self {
            StatePrefix::Hover => ":hover",
            StatePrefix::Focus => ":focus",
            StatePrefix::Active => ":active",
            StatePrefix::Disabled => ":disabled",
        }
    }

    /// The prefix text: `hover`, `focus`, `active`, `disabled`.
    pub fn as_str(&self) -> (r: &'static str)
        ensures
            r@ == state_name(*self),
    {
        match self {
            StatePrefix::Hover => "hover",
            StatePrefix::Focus => "focus",
            StatePrefix::Active => "active",
            StatePrefix::Disabled => "disabled",
        }
    }
}

/// One class of a class string.
#[derive(Debug, Clone, PartialEq, Eq, Hash)]
pub struct ClassToken {
    pub responsive: Option<ResponsivePrefix>,
    pub state: Option<StatePrefix>,
    /// The utility, e.g. `flex`, `p-4`, `text-red-500`.
    pub utility: String,
}

/// What a class token says.
pub struct TokenView {
    pub responsive: Option<ResponsivePrefix>,
    pub state: Option<StatePrefix>,
    pub utility: Seq<char>,
}

impl View for ClassToken {
    type V = TokenView;

    open spec fn view(&self) -> TokenView {
        TokenView { responsive: self.responsive, state: self.state, utility: self.utility@ }
    }
}

/// The escaped selector of a token: its prefixes, each followed by `\:`,
/// then the utility (`md\:hover\:bg-blue-500`).
pub open spec fn selector_text(t: TokenView) -> Seq<char> {
    (match t.responsive {
        Some(r) => responsive_name(r) + seq!['\\', ':'],
        None => seq![],
    }) + (match t.state {
        Some(s) => state_name(s) + seq!['\\', ':'],
        None => seq![],
    }) + t.utility
}

impl ClassToken {
    /// The escaped CSS class selector, e.g. `md\:hover\:bg-blue-500`.
    pub fn selector(&self) -> (r: String)
        ensures
            r@ == selector_text(self@),
    {
        let mut out = String::new();
        match &self.responsive {
            Some(r) => {
                push_str(&mut out, r.as_str());
                push_str(&mut out, "\\:");
                proof {
                    reveal_strlit("\\:");
                }
            },
            None => {},
        }
        let ghost after_r = out@;
        match &self.state {
            Some(s) => {
                push_str(&mut out, s.as_str());
                push_str(&mut out, "\\:");
                proof {
                    reveal_strlit("\\:");
                }
            },
            None => {},
        }
        push_str(&mut out, self.utility.as_str());
        out
    }
}

/// What a prefix part of a class names.
pub enum Prefix {
    Responsive(ResponsivePrefix),
    State(StatePrefix),
}

/// The prefix named by `p`, if it is one.
pub open spec fn prefix_named(p: Seq<char>) -> Option<Prefix> {
    if p == "sm"@ {
        Some(Prefix::Responsive(ResponsivePrefix::Sm))
    } else if p == "md"@ {
        Some(Prefix::Responsive(ResponsivePrefix::Md))
    } else if p == "lg"@ {
        Some(Prefix::Responsive(ResponsivePrefix::Lg))
    } else if p == "xl"@ {
        Some(Prefix::Responsive(ResponsivePrefix::Xl))
    } else if p == "2xl"@ {
        Some(Prefix::Responsive(ResponsivePrefix::TwoXl))
    } else if p == "hover"@ {
        Some(Prefix::State(StatePrefix::Hover))
    } else if p == "focus"@ {
        Some(Prefix::State(StatePrefix::Focus))
    } else if p == "active"@ {
        Some(Prefix::State(StatePrefix::Active))
    } else if p == "disabled"@ {
        Some(Prefix::State(StatePrefix::Disabled))
    } else {
        None
    }
}

/// The breakpoint and state set by reading prefix parts in order (a later
/// prefix of the same kind wins), or `None` when one is not a prefix.
pub open spec fn read_prefixes(ps: Seq<Seq<char>>, r: Option<ResponsivePrefix>, s: Option<StatePrefix>) -> Option<
    (Option<ResponsivePrefix>, Option<StatePrefix>),
>
    decreases ps.len(),
{
    if ps.len() == 0 {
        Some((r, s))
    } else {
        match prefix_named(ps[0]) {
            None => None,
            Some(Prefix::Responsive(x)) => read_prefixes(ps.drop_first(), Some(x), s),
            Some(Prefix::State(y)) => read_prefixes(ps.drop_first(), r, Some(y)),
        }
    }
}

/// The token of one class: its `:`-separated parts are prefixes and then
/// the utility, which must be one the emitter recognises.
pub open spec fn class_token(input: Seq<char>) -> Option<TokenView> {
    if input.len() == 0 {
        None
    } else {
        let parts = split_on(input, seq![':']);
        match read_prefixes(parts.drop_last(), None, None) {
            None => None,
            Some((r, s)) => if parts.last().len() == 0 || utility_decls(parts.last()) is None {
                None
            } else {
                Some(TokenView { responsive: r, state: s, utility: parts.last() })
            },
        }
    }
}

/// `s` holds no `:`.
pub open spec fn colon_free(s: Seq<char>) -> bool {
    forall|i: int| 0 <= i < s.len() ==> s[i] != ':'
}

/// `s` with each `:` written as `\:`.
pub open spec fn escape_colons(s: Seq<char>) -> Seq<char>
    decreases s.len(),
{
    if s.len() == 0 {
        seq![]
    } else {
        (if s[0] == ':' {
            seq!['\\', ':']
        } else {
            seq![s[0]]
        }) + escape_colons(s.drop_first())
    }
}

/// A class as written: an optional breakpoint and `:`, an optional state and
/// `:`, then the utility (`md:hover:bg-blue-500`).
pub open spec fn written_class(r: Option<ResponsivePrefix>, s: Option<StatePrefix>, u: Seq<char>) -> Seq<
    char,
> {
    (match r {
        Some(r) => responsive_name(r) + seq![':'],
        None => seq![],
    }) + (match s {
        Some(s) => state_name(s) + seq![':'],
        None => seq![],
    }) + u
}

proof fn lemma_escape_append(a: Seq<char>, b: Seq<char>)
    ensures
        escape_colons(a + b) == escape_colons(a) + escape_colons(b),
    decreases a.len(),
{
    if a.len() == 0 {
        assert(a + b =~= b);
    } else {
        assert((a + b).drop_first() =~= a.drop_first() + b);
        lemma_escape_append(a.drop_first(), b);
    }
}

proof fn lemma_escape_colon_free(s: Seq<char>)
    requires
        colon_free(s),
    ensures
        escape_colons(s) == s,
    decreases s.len(),
{
    if s.len() > 0 {
        lemma_escape_colon_free(s.drop_first());
        assert(seq![s[0]] + s.drop_first() =~= s);
    }
}

/// Splitting `p:rest` on `:` where `p` holds no `:` gives `p`, then the
/// pieces of `rest`.
proof fn lemma_split_colon_after(p: Seq<char>, rest: Seq<char>)
    requires
        colon_free(p),
    ensures
        split_on(p + seq![':'] + rest, seq![':']) == seq![p] + split_on(rest, seq![':']),
{
    let s = p + seq![':'] + rest;
    let sep = seq![':'];
    lemma_find_from(s, sep, 0);
    assert(s.subrange(p.len() as int, p.len() + 1int) =~= sep);
    assert forall|j: int| 0 <= j < p.len() implies !matches_at(s, sep, j) by {
        if matches_at(s, sep, j) {
            assert(s.subrange(j, j + 1)[0] == s[j]);
        }
    }
    assert(matches_at(s, sep, p.len() as int));
    match find(s, sep) {
        Some(k) => {
            if k < p.len() {
                assert(!matches_at(s, sep, k));
            }
        },
        None => {},
    }
    assert(find(s, sep) == Some(p.len() as int));
    assert(s.subrange(0, p.len() as int) =~= p);
    assert(s.subrange(p.len() + 1int, s.len() as int) =~= rest);
}

/// A piece with no `:` splits into itself.
proof fn lemma_split_colon_free(u: Seq<char>)
    requires
        colon_free(u),
    ensures
        split_on(u, seq![':']) == seq![u],
{
    let sep = seq![':'];
    lemma_find_from(u, sep, 0);
    if let Some(k) = find(u, sep) {
        assert(u.subrange(k, k + 1)[0] == u[k]);
    }
}

proof fn lemma_prefix_names(r: ResponsivePrefix, s: StatePrefix)
    ensures
        prefix_named(responsive_name(r)) == Some(Prefix::Responsive(r)),
        prefix_named(state_name(s)) == Some(Prefix::State(s)),
        colon_free(responsive_name(r)),
        colon_free(state_name(s)),
{
    reveal_strlit("sm");
    reveal_strlit("md");
    reveal_strlit("lg");
    reveal_strlit("xl");
    reveal_strlit("2xl");
    reveal_strlit("hover");
    reveal_strlit("focus");
    reveal_strlit("active");
    reveal_strlit("disabled");
    assert("sm"@[0] == 's' && "md"@[0] == 'm' && "lg"@[0] == 'l' && "xl"@[0] == 'x' && "2xl"@[0] == '2');
    assert("hover"@[0] == 'h' && "focus"@[0] == 'f' && "active"@[0] == 'a' && "disabled"@[0] == 'd');
}

/// A class written as an optional breakpoint, an optional state and a
/// recognised utility without `:` is read back as exactly those parts, and
/// the selector of that token is the class as written with each `:`
/// escaped (`md:hover:bg-blue-500` gives `md\:hover\:bg-blue-500`).
#[verifier::spinoff_prover]
#[verifier::rlimit(30)]
pub proof fn lemma_selector_reproduces_class(r: Option<ResponsivePrefix>, s: Option<StatePrefix>, u: Seq<char>)
    requires
        u.len() > 0,
        colon_free(u),
        utility_decls(u) is Some,
    ensures
        class_token(written_class(r, s, u)) == Some(TokenView { responsive: r, state: s, utility: u }),
        selector_text(TokenView { responsive: r, state: s, utility: u }) == escape_colons(
            written_class(r, s, u),
        ),
{
    let rp = match r {
        Some(x) => responsive_name(x) + seq![':'],
        None => seq![],
    };
    let sp = match s {
        Some(y) => state_name(y) + seq![':'],
        None => seq![],
    };
    let w = written_class(r, s, u);
    let sep = seq![':'];
    if let Some(x) = r {
        lemma_prefix_names(x, StatePrefix::Hover);
    }
    if let Some(y) = s {
        lemma_prefix_names(ResponsivePrefix::Sm, y);
    }
    lemma_split_colon_free(u);
    let tail = split_on(sp + u, sep);
    match s {
        Some(y) => {
            assert(sp + u =~= state_name(y) + sep + u);
            lemma_split_colon_after(state_name(y), u);
            assert(tail =~= seq![state_name(y), u]);
        },
        None => {
            assert(sp + u =~= u);
        },
    }
    let parts = split_on(w, sep);
    match r {
        Some(x) => {
            assert(w =~= responsive_name(x) + sep + (sp + u));
            lemma_split_colon_after(responsive_name(x), sp + u);
            assert(parts =~= seq![responsive_name(x)] + tail);
        },
        None => {
            assert(w =~= sp + u);
        },
    }
    assert(parts.last() == u);
    reveal_with_fuel(read_prefixes, 3);
    match (r, s) {
        (Some(x), Some(y)) => {
            assert(parts.drop_last() =~= seq![responsive_name(x), state_name(y)]);
            assert(parts.drop_last().drop_first() =~= seq![state_name(y)]);
            assert(parts.drop_last().drop_first().drop_first() =~= Seq::<Seq<char>>::empty());
        },
        (Some(x), None) => {
            assert(parts.drop_last() =~= seq![responsive_name(x)]);
            assert(parts.drop_last().drop_first() =~= Seq::<Seq<char>>::empty());
        },
        (None, Some(y)) => {
            assert(parts.drop_last() =~= seq![state_name(y)]);
            assert(parts.drop_last().drop_first() =~= Seq::<Seq<char>>::empty());
        },
        (None, None) => {
            assert(parts.drop_last() =~= Seq::<Seq<char>>::empty());
        },
    }
    lemma_escape_append(rp + sp, u);
    lemma_escape_append(rp, sp);
    lemma_escape_colon_free(u);
    assert(escape_colons(sep) =~= seq!['\\', ':']) by {
        assert(sep.drop_first() =~= Seq::<char>::empty());
        reveal_with_fuel(escape_colons, 2);
    }
    if let Some(x) = r {
        lemma_escape_append(responsive_name(x), sep);
        lemma_escape_colon_free(responsive_name(x));
    }
    if let Some(y) = s {
        lemma_escape_append(state_name(y), sep);
        lemma_escape_colon_free(state_name(y));
    }
    assert(w =~= rp + sp + u);
    assert(escape_colons(seq![]) =~= Seq::<char>::empty());
}

pub proof fn lemma_split_nonempty(s: Seq<char>, sep: Seq<char>)
    ensures
        split_on(s, sep).len() >= 1,
{
}

fn prefix_of(p: &str) -> (r: Option<Prefix>)
    ensures
        r == prefix_named(p@),
{
    if str_eq(p, "sm") {
        Some(Prefix::Responsive(ResponsivePrefix::Sm))
    } else if str_eq(p, "md") {
        Some(Prefix::Responsive(ResponsivePrefix::Md))
    } else if str_eq(p, "lg") {
        Some(Prefix::Responsive(ResponsivePrefix::Lg))
    } else if str_eq(p, "xl") {
        Some(Prefix::Responsive(ResponsivePrefix::Xl))
    } else if str_eq(p, "2xl") {
        Some(Prefix::Responsive(ResponsivePrefix::TwoXl))
    } else if str_eq(p, "hover") {
        Some(Prefix::State(StatePrefix::Hover))
    } else if str_eq(p, "focus") {
        Some(Prefix::State(StatePrefix::Focus))
    } else if str_eq(p, "active") {
        Some(Prefix::State(StatePrefix::Active))
    } else if str_eq(p, "disabled") {
        Some(Prefix::State(StatePrefix::Disabled))
    } else {
        None
    }
}

/// The token for a single class like `md:hover:bg-blue-500`, or `None` when
/// the class is empty, has an unknown prefix, or has no recognised utility.
pub fn parse_class(input: &str) -> (r: Option<ClassToken>)
    ensures
        match r {
            Some(t) => class_token(input@) == Some(t@),
            None => class_token(input@) is None,
        },
{
    if input.is_empty() {
        return None;
    }
    let cs = chars_of(input);
    let colon = [':'];
    assert(colon@ =~= seq![':']);
    let parts = split_chars(&cs, &colon);
    let ghost all = strings_view(parts@);
    proof {
        lemma_split_nonempty(input@, seq![':']);
    }
    let last = parts.len() - 1;
    let mut responsive: Option<ResponsivePrefix> = None;
    let mut state: Option<StatePrefix> = None;
    let mut i: usize = 0;
    assert(all.drop_last().subrange(0, last as int) =~= all.drop_last());
    while i < last
        invariant
            i <= last,
            last + 1 == parts@.len(),
            all == strings_view(parts@),
            all == split_on(input@, seq![':']),
            read_prefixes(all.drop_last().subrange(i as int, last as int), responsive, state)
                == read_prefixes(all.drop_last(), None, None),
        decreases last - i,
    {
        let ghost rest = all.drop_last().subrange(i as int, last as int);
        assert(rest.drop_first() =~= all.drop_last().subrange(i + 1, last as int));
        assert(rest[0] == parts@[i as int]@);
        match prefix_of(parts[i].as_str()) {
            None => {
                return None;
            },
            Some(Prefix::Responsive(x)) => {
                responsive = Some(x);
            },
            Some(Prefix::State(y)) => {
                state = Some(y);
            },
        }
        i = i + 1;
    }
    assert(all.last() == parts@[last as int]@);
    let utility = parts[last].clone();
    if utility.as_str().is_empty() {
        return None;
    }
    if utility_to_css(utility.as_str()).is_none() {
        return None;
    }
    Some(ClassToken { responsive, state, utility })
}

// ─── Class strings ───────────────────────────────────────────────────────────

/// Whether `regex` counts a character beyond ASCII as a word character
/// (`\w`, Unicode-aware).
pub uninterp spec fn unicode_word_char(c: char) -> bool;

/// A character of a class: a word character (an ASCII letter, digit or
/// `_`, or a word character beyond ASCII) or one of `:/%-`.
pub open spec fn class_char(c: char) -> bool {
    ||| 'a' <= c <= 'z' || 'A' <= c <= 'Z' || '0' <= c <= '9' || c == '_'
    ||| ((c as u32) >= 128 && unicode_word_char(c))
    ||| c == ':' || c == '/' || c == '%' || c == '-'
}

/// The runs finished so far and the run being read, after reading `s`.
pub open spec fn class_state(s: Seq<char>) -> (Seq<Seq<char>>, Seq<char>)
    decreases s.len(),
{
    if s.len() == 0 {
        (seq![], seq![])
    } else {
        let (done, cur) = class_state(s.drop_last());
        if class_char(s.last()) {
            (done, cur.push(s.last()))
        } else {
            (
                if cur.len() > 0 {
                    done.push(cur)
                } else {
                    done
                },
                seq![],
            )
        }
    }
}

/// The maximal runs of class characters (`[\w:/%-]+`) in `s`, in order.
pub open spec fn class_words(s: Seq<char>) -> Seq<Seq<char>> {
    let (done, cur) = class_state(s);
    if cur.len() > 0 {
        done.push(cur)
    } else {
        done
    }
}

/// The runs of class characters in `input`: the text of each match of the
/// `regex` crate's `Regex::find_iter` for the pattern `[\w:/%-]+`, which
/// are the maximal runs of characters in that class, left to right. Which
/// characters beyond ASCII `\w` takes in is left to `regex`.
#[verifier::external_body]
fn find_class_words(input: &str) -> (r: Vec<String>)
    ensures
        strings_view(r@) == class_words(input@),
        forall|i: int, j: int|
            #![trigger r@[i]@[j]]
            0 <= i < r@.len() && 0 <= j < r@[i]@.len() && (r@[i]@[j] as u32) >= 128 ==> unicode_word_char(
                r@[i]@[j],
            ),
{
    let re = Regex::new(r"[\w:/%-]+").unwrap();
    let mut out = Vec::new();
    for m in re.find_iter(input) {
        out.push(m.as_str().to_string());
    }
    out
}

/// The tokens of the classes in `words` that parse, in order.
pub open spec fn tokens_of(words: Seq<Seq<char>>) -> Seq<TokenView>
    decreases words.len(),
{
    if words.len() == 0 {
        seq![]
    } else {
        (match class_token(words[0]) {
            Some(t) => seq![t],
            None => seq![],
        }) + tokens_of(words.drop_first())
    }
}

/// The views of a list of tokens.
pub open spec fn tokens_view(v: Seq<ClassToken>) -> Seq<TokenView> {
    v.map_values(|t: ClassToken| t@)
}

proof fn lemma_tokens_of_push(words: Seq<Seq<char>>, w: Seq<char>)
    ensures
        tokens_of(words.push(w)) == tokens_of(words) + (match class_token(w) {
            Some(t) => seq![t],
            None => seq![],
        }),
    decreases words.len(),
{
    if words.len() > 0 {
        assert(words.push(w).drop_first() =~= words.drop_first().push(w));
        lemma_tokens_of_push(words.drop_first(), w);
        assert(tokens_of(words.push(w)) =~= tokens_of(words) + (match class_token(w) {
            Some(t) => seq![t],
            None => seq![],
        }));
    } else {
        assert(words.push(w).drop_first() =~= Seq::<Seq<char>>::empty());
        assert(tokens_of(words.push(w).drop_first()) =~= Seq::<TokenView>::empty());
        assert(tokens_of(words) =~= Seq::<TokenView>::empty());
        assert(tokens_of(words.push(w)) =~= (match class_token(w) {
            Some(t) => seq![t],
            None => seq![],
        }));
    }
}

/// The tokens of those of `words` that parse as classes, in order.
pub fn parse_class_words(words: &Vec<String>) -> (r: Vec<ClassToken>)
    ensures
        tokens_view(r@) == tokens_of(strings_view(words@)),
{
    let ghost all = strings_view(words@);
    let mut out: Vec<ClassToken> = Vec::new();
    let mut i: usize = 0;
    while i < words.len()
        invariant
            i <= words@.len(),
            all == strings_view(words@),
            tokens_view(out@) == tokens_of(all.subrange(0, i as int)),
        decreases words.len() - i,
    {
        proof {
            lemma_tokens_of_push(all.subrange(0, i as int), all[i as int]);
            assert(all.subrange(0, i + 1) =~= all.subrange(0, i as int).push(all[i as int]));
        }
        match parse_class(words[i].as_str()) {
            Some(t) => {
                let ghost before = out@;
                out.push(t);
                assert(tokens_view(out@) =~= tokens_view(before).push(out@.last()@));
            },
            None => {},
        }
        i = i + 1;
    }
    assert(all.subrange(0, all.len() as int) =~= all);
    out
}

/// The tokens of a class string like `flex p-4 md:hover:bg-blue-500`.
pub fn parse_class_string(input: &str) -> (r: Vec<ClassToken>)
    ensures
        tokens_view(r@) == tokens_of(class_words(input@)),
{
    let words = find_class_words(input);
    parse_class_words(&words)
}

} // verus!

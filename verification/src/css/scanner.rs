//! Finding the classes a source file uses: the values of its `class="..."`
//! and `className="..."` attributes, split at white space.
use vstd::prelude::*;
use regex::Regex;
use crate::text::{chars_of, is_white_space, str_eq, string_from_chars, strings_view, white_space};

verus! {

/// The values of the `class`/`className` attributes in `s` (the first group
/// of each match of ``(?:class|className)\s*=\s*["']([^"']+)["']``), in order.
pub uninterp spec fn class_attr_values(s: Seq<char>) -> Seq<Seq<char>>;

/// The attribute values found by the `regex` crate's `captures_iter` with
/// the pattern above: the text of the first group of each match. What `\s`
/// matches is left to `regex`.
#[verifier::external_body]
fn find_class_attrs(content: &str) -> (r: Vec<String>)
    ensures
        strings_view(r@) == class_attr_values(content@),
{
    let re = Regex::new(r#"(?:class|className)\s*=\s*["']([^"']+)["']"#).unwrap();
    let mut out = Vec::new();
    for cap in re.captures_iter(content) {
        match cap.get(1) {
            Some(m) => out.push(m.as_str().to_string()),
            None => out.push(String::new()),
        }
    }
    out
}

/// The words finished so far and the word being read, after reading `s`.
pub open spec fn ws_state(s: Seq<char>) -> (Seq<Seq<char>>, Seq<char>)
    decreases s.len(),
{
    if s.len() == 0 {
        (seq![], seq![])
    } else {
        let (done, cur) = ws_state(s.drop_last());
        if white_space(s.last()) {
            (
                if cur.len() > 0 {
                    done.push(cur)
                } else {
                    done
                },
                seq![],
            )
        } else {
            (done, cur.push(s.last()))
        }
    }
}

/// The non-empty runs of non-white-space characters of `s`
/// (`str::split_whitespace`).
pub open spec fn ws_words(s: Seq<char>) -> Seq<Seq<char>> {
    let (done, cur) = ws_state(s);
    if cur.len() > 0 {
        done.push(cur)
    } else {
        done
    }
}

/// The words of each value in turn.
pub open spec fn all_words(vals: Seq<Seq<char>>) -> Seq<Seq<char>>
    decreases vals.len(),
{
    if vals.len() == 0 {
        seq![]
    } else {
        all_words(vals.drop_last()) + ws_words(vals.last())
    }
}

/// `s` with every repeat of an earlier element left out.
pub open spec fn distinct(s: Seq<Seq<char>>) -> Seq<Seq<char>>
    decreases s.len(),
{
    if s.len() == 0 {
        seq![]
    } else if distinct(s.drop_last()).contains(s.last()) {
        distinct(s.drop_last())
    } else {
        distinct(s.drop_last()).push(s.last())
    }
}

fn split_white_space(s: &str, out: &mut Vec<String>)
    ensures
        strings_view(final(out)@) == strings_view(old(out)@) + ws_words(s@),
{
    let cs = chars_of(s);
    let ghost start = strings_view(out@);
    let mut cur: Vec<char> = Vec::new();
    let mut i: usize = 0;
    while i < cs.len()
        invariant
            i <= cs@.len(),
            cs@ == s@,
            strings_view(out@) == start + ws_state(cs@.subrange(0, i as int)).0,
            cur@ == ws_state(cs@.subrange(0, i as int)).1,
        decreases cs.len() - i,
    {
        let ghost pre = cs@.subrange(0, i + 1);
        assert(pre.drop_last() =~= cs@.subrange(0, i as int));
        assert(pre.last() == cs@[i as int]);
        if is_white_space(cs[i]) {
            if cur.len() > 0 {
                let ghost before = strings_view(out@);
                out.push(string_from_chars(&cur));
                assert(strings_view(out@) =~= before.push(cur@));
            }
            cur = Vec::new();
        } else {
            cur.push(cs[i]);
        }
        i = i + 1;
    }
    assert(cs@.subrange(0, cs@.len() as int) =~= cs@);
    if cur.len() > 0 {
        let ghost before = strings_view(out@);
        out.push(string_from_chars(&cur));
        assert(strings_view(out@) =~= before.push(cur@));
    }
}

fn contains_string(v: &Vec<String>, s: &str) -> (r: bool)
    ensures
        r == strings_view(v@).contains(s@),
{
    let mut i: usize = 0;
    while i < v.len()
        invariant
            i <= v@.len(),
            forall|k: int| 0 <= k < i ==> v@[k]@ != s@,
        decreases v.len() - i,
    {
        if str_eq(v[i].as_str(), s) {
            assert(strings_view(v@)[i as int] == s@);
            return true;
        }
        i = i + 1;
    }
    assert forall|k: int| 0 <= k < strings_view(v@).len() implies strings_view(v@)[k] != s@ by {
        assert(strings_view(v@)[k] == v@[k]@);
    }
    false
}

/// The classes a file's text uses, each once, in the order they first
/// appear.
pub fn scan_content(content: &str) -> (r: Vec<String>)
    ensures
        strings_view(r@) == distinct(all_words(class_attr_values(content@))),
{
    let vals = find_class_attrs(content);
    let ghost vv = strings_view(vals@);
    let mut words: Vec<String> = Vec::new();
    let mut i: usize = 0;
    while i < vals.len()
        invariant
            i <= vals@.len(),
            vv == strings_view(vals@),
            vv == class_attr_values(content@),
            strings_view(words@) == all_words(vv.subrange(0, i as int)),
        decreases vals.len() - i,
    {
        split_white_space(vals[i].as_str(), &mut words);
        assert(vv.subrange(0, i + 1).drop_last() =~= vv.subrange(0, i as int));
        i = i + 1;
    }
    assert(vv.subrange(0, vv.len() as int) =~= vv);
    let ghost ws = strings_view(words@);
    let mut out: Vec<String> = Vec::new();
    let mut k: usize = 0;
    while k < words.len()
        invariant
            k <= words@.len(),
            ws == strings_view(words@),
            strings_view(out@) == distinct(ws.subrange(0, k as int)),
        decreases words.len() - k,
    {
        let ghost pre = ws.subrange(0, k + 1);
        assert(pre.drop_last() =~= ws.subrange(0, k as int));
        assert(pre.last() == words@[k as int]@);
        if !contains_string(&out, words[k].as_str()) {
            let ghost before = strings_view(out@);
            out.push(words[k].clone());
            assert(strings_view(out@) =~= before.push(words@[k as int]@));
        }
        k = k + 1;
    }
    assert(ws.subrange(0, ws.len() as int) =~= ws);
    out
}

/// The file extensions whose files are scanned for classes.
pub open spec fn scanned_extension(ext: Seq<char>) -> bool {
    ||| ext == "html"@
    ||| ext == "htm"@
    ||| ext == "kungfu"@
    ||| ext == "kng"@
    ||| ext == "tsx"@
    ||| ext == "jsx"@
    ||| ext == "ts"@
    ||| ext == "js"@
    ||| ext == "vue"@
    ||| ext == "svelte"@
}

/// Whether files with extension `ext` are scanned for classes.
pub fn is_scanned_extension(ext: &str) -> (r: bool)
    ensures
        r == scanned_extension(ext@),
{
    str_eq(ext, "html") || str_eq(ext, "htm") || str_eq(ext, "kungfu") || str_eq(ext, "kng")
        || str_eq(ext, "tsx")
        || str_eq(ext, "jsx") || str_eq(ext, "ts") || str_eq(ext, "js") || str_eq(ext, "vue")
        || str_eq(ext, "svelte")
}

} // verus!

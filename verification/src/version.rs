//! Reading llama.cpp's build number from `llama-server --version` output.
use vstd::prelude::*;
use crate::text::{chars_of, has_prefix, is_digit, lines, lines_of, push_char, starts_with, sub_chars, trim, trim_chars, ascii_digit};

verus! {

/// The run of ASCII digits that `s` begins with.
pub open spec fn leading_digits(s: Seq<char>) -> Seq<char>
    decreases s.len(),
{
    if s.len() > 0 && is_digit(s[0]) {
        seq![s[0]] + leading_digits(s.drop_first())
    } else {
        Seq::empty()
    }
}

/// The build number after `prefix` on a trimmed line, as `b<N>`.
pub open spec fn version_after(t: Seq<char>, prefix: Seq<char>) -> Option<Seq<char>> {
    if starts_with(t, prefix) {
        let num = leading_digits(trim(t.skip(prefix.len() as int)));
        if num.len() > 0 {
            Some("b"@ + num)
        } else {
            None
        }
    } else {
        None
    }
}

/// The build number a line announces with `version:` or `build:`.
pub open spec fn version_in_line(l: Seq<char>) -> Option<Seq<char>> {
    let t = trim(l);
    match version_after(t, "version:"@) {
        Some(v) => Some(v),
        None => version_after(t, "build:"@),
    }
}

/// The first build number announced by any of the lines.
pub open spec fn first_version(ls: Seq<Seq<char>>) -> Option<Seq<char>>
    decreases ls.len(),
{
    if ls.len() == 0 {
        None
    } else {
        match first_version(ls.drop_last()) {
            Some(v) => Some(v),
            None => version_in_line(ls.last()),
        }
    }
}

/// The leading digits of `s`.
fn leading_digit_chars(s: &[char]) -> (v: Vec<char>)
    ensures
        v@ == leading_digits(s@),
{
    let mut i: usize = 0;
    assert(s@.skip(0) =~= s@);
    assert(s@.take(0) + leading_digits(s@.skip(0)) =~= leading_digits(s@));
    while i < s.len() && ascii_digit(s[i])
        invariant
            i <= s@.len(),
            leading_digits(s@) == s@.take(i as int) + leading_digits(s@.skip(i as int)),
        decreases s.len() - i,
    {
        assert(s@.skip(i as int).drop_first() =~= s@.skip(i + 1));
        assert(s@.take(i + 1) =~= s@.take(i as int) + seq![s@[i as int]]);
        assert(s@.take(i as int) + leading_digits(s@.skip(i as int)) =~= s@.take(i + 1)
            + leading_digits(s@.skip(i + 1)));
        i = i + 1;
    }
    assert(leading_digits(s@.skip(i as int)) =~= Seq::<char>::empty());
    assert(s@.take(i as int) + Seq::<char>::empty() =~= s@.take(i as int));
    sub_chars(s, 0, i)
}

/// `b<N>` for the number after `prefix` on the trimmed line `t`.
fn version_after_chars(t: &[char], prefix: &str) -> (r: Option<String>)
    ensures
        crate::cluster::opt_string_view(r) == version_after(t@, prefix@),
{
    let p = chars_of(prefix);
    if !has_prefix(t, &p) {
        return None;
    }
    let rest = sub_chars(t, p.len(), t.len());
    assert(rest@ =~= t@.skip(p@.len() as int));
    let rest_trimmed = trim_chars(&rest);
    let num = leading_digit_chars(&rest_trimmed);
    if num.len() == 0 {
        return None;
    }
    let mut out = String::new();
    push_char(&mut out, 'b');
    let mut k: usize = 0;
    while k < num.len()
        invariant
            k <= num@.len(),
            out@ == seq!['b'] + num@.take(k as int),
        decreases num.len() - k,
    {
        push_char(&mut out, num[k]);
        assert(num@.take(k + 1) =~= num@.take(k as int).push(num@[k as int]));
        assert(out@ =~= seq!['b'] + num@.take(k + 1));
        k = k + 1;
    }
    proof {
        reveal_strlit("b");
        assert(num@.take(num@.len() as int) =~= num@);
        assert("b"@ =~= seq!['b']);
    }
    Some(out)
}

/// Parse `llama-server --version` output into `b<N>` (e.g. "b9789").
pub fn parse_llama_version(stdout: &str) -> (r: Option<String>)
    ensures
        crate::cluster::opt_string_view(r) == first_version(lines(stdout@)),
{
    let text = chars_of(stdout);
    let ls = lines_of(&text);
    let ghost lv = crate::text::views(ls@);
    let mut i: usize = 0;
    assert(lv.take(0) =~= Seq::<Seq<char>>::empty());
    while i < ls.len()
        invariant
            lv == crate::text::views(ls@),
            lv == lines(stdout@),
            i <= ls@.len(),
            first_version(lv.take(i as int)) is None,
        decreases ls.len() - i,
    {
        assert(lv.take(i + 1).drop_last() =~= lv.take(i as int));
        assert(lv.take(i + 1).last() == ls@[i as int]@);
        let t = trim_chars(&ls[i]);
        match version_after_chars(&t, "version:") {
            Some(v) => {
                proof {
                    lemma_first_version_stable(lv, i + 1);
                }
                return Some(v);
            },
            None => {},
        }
        match version_after_chars(&t, "build:") {
            Some(v) => {
                proof {
                    lemma_first_version_stable(lv, i + 1);
                }
                return Some(v);
            },
            None => {},
        }
        i = i + 1;
    }
    assert(lv.take(lv.len() as int) =~= lv);
    None
}

/// Once a prefix of the lines announces a version, the whole text announces that one.
proof fn lemma_first_version_stable(ls: Seq<Seq<char>>, m: int)
    requires
        0 <= m <= ls.len(),
        first_version(ls.take(m)) is Some,
    ensures
        first_version(ls) == first_version(ls.take(m)),
    decreases ls.len(),
{
    if m == ls.len() {
        assert(ls.take(m) =~= ls);
    } else {
        assert(ls.drop_last().take(m) =~= ls.take(m));
        lemma_first_version_stable(ls.drop_last(), m);
    }
}

} // verus!

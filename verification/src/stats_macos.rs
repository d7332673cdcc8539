//! Parsing macOS `vm_stat` and `system_profiler` output.
use vstd::prelude::*;
use crate::text::{
    all_ascii_digits, all_digits, chars_of, has_prefix, lines, lines_of, parse_decimal,
    parse_unsigned, same_chars, split_chars2, split_on2, split_once, split_once_chars, starts_with,
    string_of, sub_chars, trim, trim_chars, trim_end_char, trim_end_char_chars, trim_start,
    trim_start_chars, views,
};

verus! {

/// A token of a `vm_stat` line, trimmed and without trailing dots.
pub open spec fn clean_token(t: Seq<char>) -> Seq<char> {
    trim_end_char(trim(t), '.')
}

/// A token that is a page count.
pub open spec fn is_count(t: Seq<char>) -> bool {
    t.len() > 0 && all_digits(t)
}

/// The rightmost page-count token among the tokens.
pub open spec fn last_count(tokens: Seq<Seq<char>>) -> Option<Seq<char>>
    decreases tokens.len(),
{
    if tokens.len() == 0 {
        None
    } else if is_count(clean_token(tokens.last())) {
        Some(clean_token(tokens.last()))
    } else {
        last_count(tokens.drop_last())
    }
}

/// The page count a `vm_stat` line ends with (0 when there is none or it overflows).
pub open spec fn line_pages(l: Seq<char>) -> u64 {
    match last_count(split_on2(l, ' ', ':')) {
        Some(t) => match parse_unsigned(t, u64::MAX as nat) {
            Some(v) => v as u64,
            None => 0,
        },
        None => 0,
    }
}

/// The index of the first line whose text (after leading whitespace) starts with `label`.
pub open spec fn first_labelled(ls: Seq<Seq<char>>, label: Seq<char>) -> int
    decreases ls.len(),
{
    if ls.len() == 0 {
        -1
    } else {
        let k = first_labelled(ls.drop_last(), label);
        if k >= 0 {
            k
        } else if starts_with(trim_start(ls.last()), label) {
            ls.len() - 1
        } else {
            -1
        }
    }
}

/// The page count of the first line labelled `label`, or 0.
pub open spec fn spec_pages_named(text: Seq<char>, label: Seq<char>) -> u64 {
    let ls = lines(text);
    let k = first_labelled(ls, label);
    if k >= 0 && k < ls.len() {
        line_pages(ls[k])
    } else {
        0
    }
}

proof fn lemma_first_labelled(ls: Seq<Seq<char>>, label: Seq<char>)
    ensures
        -1 <= first_labelled(ls, label) < ls.len(),
    decreases ls.len(),
{
    if ls.len() > 0 {
        lemma_first_labelled(ls.drop_last(), label);
    }
}

proof fn lemma_first_labelled_stable(ls: Seq<Seq<char>>, m: int, label: Seq<char>)
    requires
        0 <= m <= ls.len(),
        first_labelled(ls.take(m), label) >= 0,
    ensures
        first_labelled(ls, label) == first_labelled(ls.take(m), label),
    decreases ls.len(),
{
    if m == ls.len() {
        assert(ls.take(m) =~= ls);
    } else {
        assert(ls.drop_last().take(m) =~= ls.take(m));
        lemma_first_labelled_stable(ls.drop_last(), m, label);
    }
}

/// The page count a line ends with.
fn pages_in_line(l: &[char]) -> (n: u64)
    ensures
        n == line_pages(l@),
{
    let tokens = split_chars2(l, ' ', ':');
    let ghost tv = views(tokens@);
    let mut j: usize = tokens.len();
    assert(tv.take(j as int) =~= tv);
    while j > 0
        invariant
            tv == views(tokens@),
            tv == split_on2(l@, ' ', ':'),
            j <= tokens@.len(),
            last_count(tv) == last_count(tv.take(j as int)),
        decreases j,
    {
        assert(tv.take(j as int).drop_last() =~= tv.take(j - 1));
        assert(tv.take(j as int).last() == tokens@[j - 1]@);
        let trimmed = trim_chars(&tokens[j - 1]);
        let t = trim_end_char_chars(&trimmed, '.');
        if t.len() > 0 && all_ascii_digits(&t) {
            return match parse_decimal(&t, u64::MAX) {
                Some(v) => v,
                None => 0,
            };
        }
        j = j - 1;
    }
    0
}

/// Pages reported on the first `vm_stat` line that starts with `label` (0 when there is no
/// such line or it holds no count).
pub fn pages_named(vm_stat: &str, label: &str) -> (n: u64)
    ensures
        n == spec_pages_named(vm_stat@, label@),
{
    let text = chars_of(vm_stat);
    let lab = chars_of(label);
    let ls = lines_of(&text);
    let ghost lv = views(ls@);
    proof {
        lemma_first_labelled(lv, label@);
    }
    let mut i: usize = 0;
    assert(lv.take(0) =~= Seq::<Seq<char>>::empty());
    while i < ls.len()
        invariant
            lv == views(ls@),
            lv == lines(vm_stat@),
            lab@ == label@,
            i <= ls@.len(),
            first_labelled(lv.take(i as int), label@) == -1,
        decreases ls.len() - i,
    {
        assert(lv.take(i + 1).drop_last() =~= lv.take(i as int));
        assert(lv.take(i + 1).last() == ls@[i as int]@);
        let start = trim_start_chars(&ls[i]);
        if has_prefix(&start, &lab) {
            proof {
                lemma_first_labelled_stable(lv, i + 1, label@);
            }
            return pages_in_line(&ls[i]);
        }
        i = i + 1;
    }
    assert(lv.take(lv.len() as int) =~= lv);
    0
}

/// The page total that `parse_vm_stat_free_mib` adds up.
pub open spec fn reclaimable_pages(text: Seq<char>) -> int {
    spec_pages_named(text, "Pages free"@) + spec_pages_named(text, "Pages inactive"@)
        + spec_pages_named(text, "Pages speculative"@)
}

/// Reclaimable RAM = free + inactive + speculative pages. Excludes wired memory (e.g.
/// Metal GPU buffers), so it reports what a launch can actually use.
pub fn parse_vm_stat_free_mib(vm_stat: &str, page_size_bytes: u64) -> (mib: u64)
    requires
        reclaimable_pages(vm_stat@) <= u64::MAX,
        reclaimable_pages(vm_stat@) * page_size_bytes <= u64::MAX,
    ensures
        mib == (reclaimable_pages(vm_stat@) * page_size_bytes) / 1048576int,
{
    let a = pages_named(vm_stat, "Pages free");
    let b = pages_named(vm_stat, "Pages inactive");
    let c = pages_named(vm_stat, "Pages speculative");
    let pages = a + b + c;
    pages * page_size_bytes / (1024 * 1024)
}

/// The reclaimable RAM of `vm_stat` output, when the page arithmetic fits in a `u64`;
/// none otherwise.
pub fn vm_stat_free_mib(vm_stat: &str, page_size_bytes: u64) -> (r: Option<u64>)
    ensures
        r is None <==> (reclaimable_pages(vm_stat@) > u64::MAX || reclaimable_pages(vm_stat@)
            * page_size_bytes > u64::MAX),
        r matches Some(mib) ==> mib == (reclaimable_pages(vm_stat@) * page_size_bytes) / 1048576int,
{
    let a = pages_named(vm_stat, "Pages free");
    let b = pages_named(vm_stat, "Pages inactive");
    let c = pages_named(vm_stat, "Pages speculative");
    if a > u64::MAX - b || a + b > u64::MAX - c {
        return None;
    }
    let pages = a + b + c;
    if page_size_bytes > 0 && pages > u64::MAX / page_size_bytes {
        assert(pages * page_size_bytes > u64::MAX) by (nonlinear_arith)
            requires
                page_size_bytes > 0,
                pages > u64::MAX / page_size_bytes,
        ;
        return None;
    }
    assert(pages * page_size_bytes <= u64::MAX) by (nonlinear_arith)
        requires
            page_size_bytes == 0 || pages <= u64::MAX / page_size_bytes,
    ;
    Some(parse_vm_stat_free_mib(vm_stat, page_size_bytes))
}

/// What follows the ':' of a line that (trimmed) starts with "VRAM" and has a ':'.
pub open spec fn vram_rest(l: Seq<char>) -> Option<Seq<char>> {
    let t = trim(l);
    if starts_with(t, "VRAM"@) {
        match split_once(t.skip("VRAM"@.len() as int), ':') {
            Some((_, r)) => Some(r),
            None => None,
        }
    } else {
        None
    }
}

/// The first VRAM line's remainder.
pub open spec fn first_vram_rest(ls: Seq<Seq<char>>) -> Option<Seq<char>>
    decreases ls.len(),
{
    if ls.len() == 0 {
        None
    } else {
        match first_vram_rest(ls.drop_last()) {
            Some(r) => Some(r),
            None => vram_rest(ls.last()),
        }
    }
}

/// The number text and the MiB per unit of the first VRAM line ("N MB" or "N GB"); none
/// when that line has no unit after the number or another unit.
pub open spec fn spec_metal_reading(text: Seq<char>) -> Option<(Seq<char>, u64)> {
    match first_vram_rest(lines(text)) {
        None => None,
        Some(r) => match split_once(trim(r), ' ') {
            None => None,
            Some((num, unit)) => if trim(unit) == "MB"@ {
                Some((trim(num), 1))
            } else if trim(unit) == "GB"@ {
                Some((trim(num), 1024))
            } else {
                None
            },
        },
    }
}

proof fn lemma_first_vram_rest_stable(ls: Seq<Seq<char>>, m: int)
    requires
        0 <= m <= ls.len(),
        first_vram_rest(ls.take(m)) is Some,
    ensures
        first_vram_rest(ls) == first_vram_rest(ls.take(m)),
    decreases ls.len(),
{
    if m == ls.len() {
        assert(ls.take(m) =~= ls);
    } else {
        assert(ls.drop_last().take(m) =~= ls.take(m));
        lemma_first_vram_rest_stable(ls.drop_last(), m);
    }
}

/// The VRAM figure of `system_profiler SPDisplaysDataType` output, from a
/// "VRAM (Total): 4 GB" or "VRAM (Dynamic, Max): 1536 MB" line: the number as text and
/// how many MiB one unit holds.
pub fn metal_vram_reading(system_profiler: &str) -> (r: Option<(String, u64)>)
    ensures
        match r {
            Some((num, per_unit)) => spec_metal_reading(system_profiler@) == Some((num@, per_unit)),
            None => spec_metal_reading(system_profiler@) is None,
        },
{
    let text = chars_of(system_profiler);
    let vram = chars_of("VRAM");
    let ls = lines_of(&text);
    let ghost lv = views(ls@);
    let mut i: usize = 0;
    let mut rest: Option<Vec<char>> = None;
    assert(lv.take(0) =~= Seq::<Seq<char>>::empty());
    assert(lv.take(lv.len() as int) =~= lv);
    while i < ls.len()
        invariant_except_break
            rest is None,
            first_vram_rest(lv.take(i as int)) is None,
        invariant
            lv == views(ls@),
            lv == lines(system_profiler@),
            vram@ == "VRAM"@,
            i <= ls@.len(),
            lv.take(lv.len() as int) == lv,
        ensures
            lv == lines(system_profiler@),
            rest is None ==> first_vram_rest(lv) is None,
            rest matches Some(r) ==> first_vram_rest(lv) == Some(r@),
        decreases ls.len() - i,
    {
        assert(lv.take(i + 1).drop_last() =~= lv.take(i as int));
        assert(lv.take(i + 1).last() == ls@[i as int]@);
        let t = trim_chars(&ls[i]);
        if has_prefix(&t, &vram) {
            let after = sub_chars(&t, vram.len(), t.len());
            assert(after@ =~= t@.skip("VRAM"@.len() as int));
            match split_once_chars(&after, ':') {
                Some((_, r)) => {
                    assert(first_vram_rest(lv.take(i + 1)) == Some(r@));
                    proof {
                        lemma_first_vram_rest_stable(lv, i + 1);
                    }
                    rest = Some(r);
                    break;
                },
                None => {},
            }
        }
        i = i + 1;
    }
    let r = match rest {
        Some(r) => r,
        None => {
            return None;
        },
    };
    let rt = trim_chars(&r);
    let (num, unit) = match split_once_chars(&rt, ' ') {
        Some(p) => p,
        None => return None,
    };
    let u = trim_chars(&unit);
    let n = trim_chars(&num);
    let mb = chars_of("MB");
    let gb = chars_of("GB");
    if same_chars(&u, &mb) {
        Some((string_of(&n), 1))
    } else if same_chars(&u, &gb) {
        Some((string_of(&n), 1024))
    } else {
        None
    }
}

} // verus!

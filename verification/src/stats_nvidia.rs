//! Parsing `nvidia-smi` CSV output.
use vstd::prelude::*;
use crate::model::{vram_reliable, is_vram_reliable, DeviceKind, DeviceStats};
use crate::text::{chars_of, lines, lines_of, parse_decimal, parse_unsigned, split_chars, split_on, string_of, trim, trim_chars, views};

verus! {

/// One CSV row `name, total, free`: trimmed columns, at least three, numeric totals.
/// Blank rows and malformed rows give nothing.
pub open spec fn nvidia_row(line: Seq<char>) -> Option<(Seq<char>, u64, u64)> {
    if trim(line).len() == 0 {
        None
    } else {
        let cols = split_on(line, ',').map_values(|c: Seq<char>| trim(c));
        if cols.len() < 3 {
            None
        } else {
            match (parse_unsigned(cols[1], u64::MAX as nat), parse_unsigned(cols[2], u64::MAX as nat)) {
                (Some(t), Some(f)) => Some((cols[0], t as u64, f as u64)),
                _ => None,
            }
        }
    }
}

/// The well-formed rows of the CSV, in order.
pub open spec fn nvidia_rows(ls: Seq<Seq<char>>) -> Seq<(Seq<char>, u64, u64)>
    decreases ls.len(),
{
    if ls.len() == 0 {
        Seq::empty()
    } else {
        nvidia_rows(ls.drop_last()) + match nvidia_row(ls.last()) {
            Some(r) => seq![r],
            None => Seq::empty(),
        }
    }
}

/// A CUDA device built from a row.
pub open spec fn row_matches(d: DeviceStats, row: (Seq<char>, u64, u64)) -> bool {
    &&& d.name@ == row.0
    &&& d.kind == DeviceKind::Cuda
    &&& d.vram_total_mib == row.1
    &&& d.vram_free_mib == row.2
    &&& d.reliable == is_vram_reliable(row.1, row.2)
}

/// Parses one row.
fn parse_row(line: &[char]) -> (r: Option<DeviceStats>)
    ensures
        match r {
            Some(d) => nvidia_row(line@) matches Some(row) && row_matches(d, row),
            None => nvidia_row(line@) is None,
        },
{
    let t = trim_chars(line);
    if t.len() == 0 {
        return None;
    }
    let raw = split_chars(line, ',');
    let mut cols: Vec<Vec<char>> = Vec::new();
    let mut k: usize = 0;
    while k < raw.len()
        invariant
            k <= raw@.len(),
            views(raw@) == split_on(line@, ','),
            views(cols@) =~= views(raw@).take(k as int).map_values(|c: Seq<char>| trim(c)),
        decreases raw.len() - k,
    {
        let c = trim_chars(&raw[k]);
        let ghost before = cols@;
        cols.push(c);
        assert(views(cols@) =~= views(before).push(trim(raw@[k as int]@)));
        assert(views(raw@).take(k + 1) =~= views(raw@).take(k as int).push(raw@[k as int]@));
        k = k + 1;
    }
    assert(views(raw@).take(raw@.len() as int) =~= views(raw@));
    let ghost cv = split_on(line@, ',').map_values(|c: Seq<char>| trim(c));
    assert(views(cols@) =~= cv);
    if cols.len() < 3 {
        return None;
    }
    assert(cols@[1]@ == cv[1] && cols@[2]@ == cv[2] && cols@[0]@ == cv[0]);
    let total = match parse_decimal(&cols[1], u64::MAX) {
        Some(v) => v,
        None => return None,
    };
    let free = match parse_decimal(&cols[2], u64::MAX) {
        Some(v) => v,
        None => return None,
    };
    Some(DeviceStats {
        name: string_of(&cols[0]),
        kind: DeviceKind::Cuda,
        vram_total_mib: total,
        vram_free_mib: free,
        reliable: vram_reliable(total, free),
    })
}

/// The GPUs listed by `nvidia-smi --query-gpu=name,memory.total,memory.free
/// --format=csv,noheader,nounits`.
pub fn parse_nvidia_smi(csv: &str) -> (devs: Vec<DeviceStats>)
    ensures
        devs@.len() == nvidia_rows(lines(csv@)).len(),
        forall|i: int|
            0 <= i < devs@.len() ==> row_matches(#[trigger] devs@[i], nvidia_rows(lines(csv@))[i]),
{
    let text = chars_of(csv);
    let ls = lines_of(&text);
    let ghost lv = views(ls@);
    let mut out: Vec<DeviceStats> = Vec::new();
    let mut i: usize = 0;
    assert(lv.take(0) =~= Seq::<Seq<char>>::empty());
    while i < ls.len()
        invariant
            lv == views(ls@),
            lv == lines(csv@),
            i <= ls@.len(),
            out@.len() == nvidia_rows(lv.take(i as int)).len(),
            forall|j: int|
                0 <= j < out@.len() ==> row_matches(#[trigger] out@[j], nvidia_rows(lv.take(i as int))[j]),
        decreases ls.len() - i,
    {
        let ghost prev = nvidia_rows(lv.take(i as int));
        assert(lv.take(i + 1).drop_last() =~= lv.take(i as int));
        assert(lv.take(i + 1).last() == ls@[i as int]@);
        match parse_row(&ls[i]) {
            Some(d) => {
                out.push(d);
                let ghost next = nvidia_rows(lv.take(i + 1));
                assert(next =~= prev.push(nvidia_row(ls@[i as int]@)->0));
                assert forall|j: int| 0 <= j < out@.len() implies row_matches(
                    #[trigger] out@[j],
                    next[j],
                ) by {
                    if j < prev.len() {
                        assert(next[j] == prev[j]);
                    }
                }
            },
            None => {
                assert(nvidia_rows(lv.take(i + 1)) =~= prev);
            },
        }
        i = i + 1;
    }
    assert(lv.take(lv.len() as int) =~= lv);
    out
}

} // verus!

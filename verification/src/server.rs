//! The decisions behind the HTTP API: node list edits, launch commands, profile saves,
//! readiness reports and settings saves. The handlers themselves do the I/O.
use vstd::prelude::*;
use crate::cluster::{
    opt_str_view, opt_string_view, spec_version_warnings, version_warnings, ClusterStatus, NodeEntry,
    NodeSnapshot,
};
use crate::config::{spec_rpc_binary_path, spec_rpc_device_filter, Config, ConfigView};
use crate::flags::{rpc_server_args, rpc_server_spec, text_flag};
use crate::model::NodeStats;
use crate::planner::{
    exclude_notes, gpu_pool, host_cpu, outcome, outcome_fit, plan_cpu_moe, plan_detail, plan_host_hint,
    plan_in_range, plan_in_range_check, plan_ngl, plan_no_mmap, plan_rpc_cpu_nodes, plan_splits,
    remote_cpu, spec_ratio, suggest_plan, ModelMeta, Plan,
};
use crate::profile::{law_upsert_then_get, profile_with_id, slugify, spec_slugify, upserted, ProfileStore};
use crate::flags::{llama_args_of, llama_server_spec, CpuMoe, LlamaServerOpts, ModelRef};
use crate::process::ProcSpec;
use crate::profile::Profile;
use crate::config::DEFAULT_UI_PORT;
use crate::text::{
    chars_of, contains_char, contains_chars, contains_seq, decimal, decimal_string, ends_with,
    has_prefix, has_suffix, is_ws, lemma_trim_fixed, parse_decimal, parse_unsigned, starts_with, lemma_trim_shape, owned, replace_char, replace_char_string,
    rsplit_once, rsplit_once_chars, same_text, string_of, string_views, trim, trim_chars,
};

verus! {

// ---------------------------------------------------------------------------
// The node list
// ---------------------------------------------------------------------------

/// A node address as stored: trimmed, with the default UI port appended to a bare host.
pub open spec fn normalized_addr(addr: Seq<char>) -> Seq<char> {
    let t = trim(addr);
    if t.contains(':') {
        t
    } else {
        t + ":"@ + decimal(DEFAULT_UI_PORT as nat)
    }
}

/// Append the default UI port to a bare host/IP so it's pollable. "192.168.0.83" ->
/// "192.168.0.83:8675"; an addr that already carries a `:port` is left as typed.
pub fn normalize_node_addr(addr: &str) -> (r: String)
    ensures
        r@ == normalized_addr(addr@),
{
    let cs = chars_of(addr);
    let t = trim_chars(&cs);
    let mut r = string_of(&t);
    if !contains_char(&t, ':') {
        r.append(":");
        r.append(decimal_string(DEFAULT_UI_PORT as u64).as_str());
    }
    r
}

/// The node list as (name, address) pairs.
pub open spec fn entry_views(ns: Seq<NodeEntry>) -> Seq<(Seq<char>, Seq<char>)> {
    Seq::new(ns.len(), |i: int| (ns[i].name@, ns[i].addr@))
}

/// Some node has the address `a`.
pub open spec fn has_addr(vs: Seq<(Seq<char>, Seq<char>)>, a: Seq<char>) -> bool {
    exists|i: int| 0 <= i < vs.len() && (#[trigger] vs[i]).1 == a
}

/// The node list after adding a node: its address is normalized, and a node whose
/// address is already listed is not added again.
pub open spec fn with_node(vs: Seq<(Seq<char>, Seq<char>)>, name: Seq<char>, addr: Seq<char>) -> Seq<
    (Seq<char>, Seq<char>),
> {
    let a = normalized_addr(addr);
    if has_addr(vs, a) {
        vs
    } else {
        vs.push((name, a))
    }
}

/// The node list without the nodes at address `a`, in order.
pub open spec fn without_addr(vs: Seq<(Seq<char>, Seq<char>)>, a: Seq<char>) -> Seq<
    (Seq<char>, Seq<char>),
>
    decreases vs.len(),
{
    if vs.len() == 0 {
        Seq::empty()
    } else {
        without_addr(vs.drop_last(), a) + (if vs.last().1 == a {
            Seq::empty()
        } else {
            seq![vs.last()]
        })
    }
}

/// The node list after removing the node at `addr` (normalized as when it was added).
pub open spec fn without_node(vs: Seq<(Seq<char>, Seq<char>)>, addr: Seq<char>) -> Seq<
    (Seq<char>, Seq<char>),
> {
    without_addr(vs, normalized_addr(addr))
}

/// The stored form of an address is its own stored form: normalizing twice is the same
/// as normalizing once.
pub proof fn law_normalize_idempotent(addr: Seq<char>)
    ensures
        normalized_addr(normalized_addr(addr)) == normalized_addr(addr),
{
    reveal_strlit(":");
    let t = trim(addr);
    lemma_trim_shape(addr);
    let port = decimal(DEFAULT_UI_PORT as nat);
    assert(port == seq!['8', '6', '7', '5']) by {
        reveal_with_fuel(decimal, 5);
    }
    if t.contains(':') {
        lemma_trim_fixed(t);
    } else {
        let u = t + ":"@ + port;
        assert(u.last() == '5');
        if t.len() > 0 {
            assert(u[0] == t[0]);
        } else {
            assert(u[0] == ':');
        }
        lemma_trim_fixed(u);
        assert(u[t.len() as int] == ':');
        assert(u.contains(':'));
    }
}

/// After adding a node, a node is listed at its normalized address.
pub proof fn law_add_node_lists_it(vs: Seq<(Seq<char>, Seq<char>)>, name: Seq<char>, addr: Seq<char>)
    ensures
        has_addr(with_node(vs, name, addr), normalized_addr(addr)),
{
    let a = normalized_addr(addr);
    if !has_addr(vs, a) {
        let w = vs.push((name, a));
        assert(w[vs.len() as int].1 == a);
    }
}

/// Adding keeps every node already listed, in order, and adds at most one.
pub proof fn law_add_node_keeps_others(vs: Seq<(Seq<char>, Seq<char>)>, name: Seq<char>, addr: Seq<char>)
    ensures
        with_node(vs, name, addr).take(vs.len() as int) == vs,
        with_node(vs, name, addr).len() <= vs.len() + 1,
{
    assert(vs.take(vs.len() as int) =~= vs);
    assert(vs.push((name, normalized_addr(addr))).take(vs.len() as int) =~= vs);
}

/// Adding a node whose address is already listed changes nothing; in particular adding
/// the same address twice is the same as adding it once.
pub proof fn law_add_node_idempotent(
    vs: Seq<(Seq<char>, Seq<char>)>,
    name: Seq<char>,
    other_name: Seq<char>,
    addr: Seq<char>,
)
    ensures
        with_node(with_node(vs, name, addr), other_name, addr) == with_node(vs, name, addr),
{
    law_add_node_lists_it(vs, name, addr);
}

/// Adding never lists an address twice when no address was listed twice before.
pub proof fn law_add_node_keeps_addrs_distinct(
    vs: Seq<(Seq<char>, Seq<char>)>,
    name: Seq<char>,
    addr: Seq<char>,
)
    requires
        forall|i: int, j: int| 0 <= i < j < vs.len() ==> vs[i].1 != vs[j].1,
    ensures
        forall|i: int, j: int|
            0 <= i < j < with_node(vs, name, addr).len() ==> with_node(vs, name, addr)[i].1
                != with_node(vs, name, addr)[j].1,
{
    let a = normalized_addr(addr);
    let w = with_node(vs, name, addr);
    if !has_addr(vs, a) {
        assert forall|i: int, j: int| 0 <= i < j < w.len() implies w[i].1 != w[j].1 by {
            if j == vs.len() {
                assert(w[i] == vs[i]);
                assert(vs[i].1 != a);
            } else {
                assert(w[i] == vs[i] && w[j] == vs[j]);
            }
        }
    }
}

/// What `without_addr` keeps: exactly the nodes at other addresses.
pub proof fn lemma_without_addr(vs: Seq<(Seq<char>, Seq<char>)>, a: Seq<char>)
    ensures
        forall|i: int| 0 <= i < without_addr(vs, a).len() ==> (#[trigger] without_addr(vs, a)[i]).1 != a,
        forall|i: int|
            0 <= i < vs.len() && (#[trigger] vs[i]).1 != a ==> without_addr(vs, a).contains(vs[i]),
        forall|p: (Seq<char>, Seq<char>)| #[trigger] without_addr(vs, a).contains(p) ==> vs.contains(p),
    decreases vs.len(),
{
    if vs.len() > 0 {
        let t = vs.drop_last();
        lemma_without_addr(t, a);
        let w = without_addr(vs, a);
        let wt = without_addr(t, a);
        let tail: Seq<(Seq<char>, Seq<char>)> = if vs.last().1 == a {
            Seq::empty()
        } else {
            seq![vs.last()]
        };
        assert(w == wt + tail);
        assert forall|i: int| 0 <= i < w.len() implies (#[trigger] w[i]).1 != a by {
            if i < wt.len() {
                assert(w[i] == wt[i]);
            }
        }
        assert forall|i: int| 0 <= i < vs.len() && (#[trigger] vs[i]).1 != a implies w.contains(vs[i]) by {
            if i < t.len() {
                assert(t[i] == vs[i]);
                let k = choose|k: int| 0 <= k < wt.len() && wt[k] == t[i];
                assert(w[k] == wt[k]);
            } else {
                assert(w[wt.len() as int] == vs.last());
            }
        }
        assert forall|p: (Seq<char>, Seq<char>)| w.contains(p) implies vs.contains(p) by {
            let k = choose|k: int| 0 <= k < w.len() && w[k] == p;
            if k < wt.len() {
                assert(wt[k] == p);
                assert(wt.contains(p));
                let m = choose|m: int| 0 <= m < t.len() && t[m] == p;
                assert(vs[m] == p);
            } else {
                assert(vs[vs.len() - 1] == p);
            }
        }
    }
}

/// After removing an address, no node is listed there, and every node at another
/// address is still listed.
pub proof fn law_remove_node_unlists_only_it(
    vs: Seq<(Seq<char>, Seq<char>)>,
    addr: Seq<char>,
    b: Seq<char>,
)
    ensures
        !has_addr(without_node(vs, addr), normalized_addr(addr)),
        b != normalized_addr(addr) ==> (has_addr(without_node(vs, addr), b) <==> has_addr(vs, b)),
{
    let a = normalized_addr(addr);
    let w = without_node(vs, addr);
    lemma_without_addr(vs, a);
    if has_addr(w, a) {
        let i = choose|i: int| 0 <= i < w.len() && (#[trigger] w[i]).1 == a;
        assert(w[i].1 != a);
    }
    if b != a {
        if has_addr(w, b) {
            let i = choose|i: int| 0 <= i < w.len() && (#[trigger] w[i]).1 == b;
            assert(w.contains(w[i]));
            assert(vs.contains(w[i]));
            let m = choose|m: int| 0 <= m < vs.len() && vs[m] == w[i];
            assert(vs[m].1 == b);
        }
        if has_addr(vs, b) {
            let i = choose|i: int| 0 <= i < vs.len() && (#[trigger] vs[i]).1 == b;
            assert(w.contains(vs[i]));
            let k = choose|k: int| 0 <= k < w.len() && w[k] == vs[i];
            assert(w[k].1 == b);
        }
    }
}

/// Adding a node and then removing its address leaves the list as removing the address
/// alone would.
pub proof fn law_remove_undoes_add(vs: Seq<(Seq<char>, Seq<char>)>, name: Seq<char>, addr: Seq<char>)
    ensures
        without_node(with_node(vs, name, addr), addr) == without_node(vs, addr),
{
    let a = normalized_addr(addr);
    if !has_addr(vs, a) {
        let w = vs.push((name, a));
        assert(w.drop_last() =~= vs);
        assert(without_addr(w, a) =~= without_addr(vs, a));
    }
}

/// A node can be removed by the address the list shows for it.
pub proof fn law_remove_by_listed_addr(vs: Seq<(Seq<char>, Seq<char>)>, name: Seq<char>, addr: Seq<char>)
    ensures
        !has_addr(
            without_node(with_node(vs, name, addr), normalized_addr(addr)),
            normalized_addr(addr),
        ),
{
    law_normalize_idempotent(addr);
    law_remove_node_unlists_only_it(with_node(vs, name, addr), normalized_addr(addr), normalized_addr(addr));
}

/// Whether some node is listed at `addr`.
fn lists_addr(nodes: &Vec<NodeEntry>, addr: &str) -> (b: bool)
    ensures
        b == has_addr(entry_views(nodes@), addr@),
{
    let ghost vs = entry_views(nodes@);
    let mut i: usize = 0;
    while i < nodes.len()
        invariant
            i <= nodes@.len(),
            vs == entry_views(nodes@),
            forall|j: int| 0 <= j < i ==> vs[j].1 != addr@,
        decreases nodes.len() - i,
    {
        if same_text(nodes[i].addr.as_str(), addr) {
            assert(vs[i as int].1 == addr@);
            return true;
        }
        i = i + 1;
    }
    false
}

/// Adds a node to the list, normalizing its address; a node at an address already
/// listed is not added twice.
pub fn add_node(nodes: &mut Vec<NodeEntry>, entry: NodeEntry)
    ensures
        entry_views(final(nodes)@) == with_node(entry_views(old(nodes)@), entry.name@, entry.addr@),
{
    let addr = normalize_node_addr(entry.addr.as_str());
    if !lists_addr(nodes, addr.as_str()) {
        let ghost before = nodes@;
        nodes.push(NodeEntry { name: entry.name, addr });
        assert(entry_views(nodes@) =~= entry_views(before).push((entry.name@, addr@)));
    }
}

/// Removes every node at the given address (normalized as when it was added).
pub fn remove_node(nodes: &mut Vec<NodeEntry>, addr: &str)
    ensures
        entry_views(final(nodes)@) == without_node(entry_views(old(nodes)@), addr@),
{
    let target = normalize_node_addr(addr);
    let mut old_nodes: Vec<NodeEntry> = Vec::new();
    std::mem::swap(&mut old_nodes, nodes);
    let ghost ns = old_nodes@;
    let ghost vs = entry_views(ns);
    let mut kept: Vec<NodeEntry> = Vec::new();
    assert(vs.take(0) =~= Seq::<(Seq<char>, Seq<char>)>::empty());
    for n in it: old_nodes
        invariant
            it.seq() == ns,
            vs == entry_views(ns),
            entry_views(kept@) == without_addr(vs.take(it.index() as int), target@),
    {
        let ghost k = it.index() as int;
        assert(vs.take(k + 1).drop_last() =~= vs.take(k));
        assert(ns[k] == n);
        assert(vs.take(k + 1).last() == (n.name@, n.addr@));
        let ghost before = kept@;
        if !same_text(n.addr.as_str(), target.as_str()) {
            kept.push(n);
            assert(entry_views(kept@) =~= entry_views(before).push((n.name@, n.addr@)));
        }
        assert(entry_views(kept@) =~= without_addr(vs.take(k + 1), target@));
    }
    assert(vs.take(vs.len() as int) =~= vs);
    *nodes = kept;
}

// ---------------------------------------------------------------------------
// Finding the model file
// ---------------------------------------------------------------------------

/// The Hugging Face hub cache directory of a repository: "org/repo" -> "models--org--repo".
pub open spec fn hf_dirname(repo: Seq<char>) -> Seq<char> {
    "models--"@ + replace_char(repo, '/', "--"@)
}

/// "unsloth/Qwen3.6-35B-A3B-GGUF" -> "models--unsloth--Qwen3.6-35B-A3B-GGUF" (HF hub layout).
pub fn hf_cache_dirname(repo: &str) -> (r: String)
    ensures
        r@ == hf_dirname(repo@),
{
    let mut r = owned("models--");
    r.append(replace_char_string(repo, '/', "--").as_str());
    r
}

/// An `org/repo:quant` selection split into the repository and the quantization, at the
/// last ':'.
pub open spec fn hf_ref_parts(hf: Seq<char>) -> (Seq<char>, Option<Seq<char>>) {
    match rsplit_once(hf, ':') {
        Some((r, q)) => (r, Some(q)),
        None => (hf, None),
    }
}

/// Splits `org/repo:quant` into the repository and the quantization.
pub fn split_hf_ref(hf: &str) -> (r: (String, Option<String>))
    ensures
        (r.0@, opt_string_view(r.1)) == hf_ref_parts(hf@),
{
    let cs = chars_of(hf);
    match rsplit_once_chars(&cs, ':') {
        Some((repo, quant)) => (string_of(&repo), Some(string_of(&quant))),
        None => (owned(hf), None),
    }
}

/// The Unicode lowercase mapping of a string, as `str::to_lowercase` computes it.
pub uninterp spec fn unicode_lowercase(s: Seq<char>) -> Seq<char>;

/// `str::to_lowercase`: the string with every character mapped to lowercase by the
/// Unicode tables (locale-independent). Its result is only named here, not spelled out.
#[verifier::external_body]
fn to_lowercase(s: &str) -> (r: String)
    ensures
        r@ == unicode_lowercase(s@),
{
    s.to_lowercase()
}

/// The items of `s` that satisfy `p`, in order.
pub open spec fn keep<A>(s: Seq<A>, p: spec_fn(A) -> bool) -> Seq<A>
    decreases s.len(),
{
    if s.len() == 0 {
        Seq::empty()
    } else {
        keep(s.drop_last(), p) + (if p(s.last()) {
            seq![s.last()]
        } else {
            Seq::empty()
        })
    }
}

/// File names paired with their lowercase forms, as plain values.
pub open spec fn pair_views(fs: Seq<(String, String)>) -> Seq<(Seq<char>, Seq<char>)> {
    Seq::new(fs.len(), |i: int| (fs[i].0@, fs[i].1@))
}

/// Whether a file's lowercase name ends with (`suffix`) or contains `pat`.
pub open spec fn lower_matches(f: (Seq<char>, Seq<char>), pat: Seq<char>, suffix: bool) -> bool {
    if suffix {
        ends_with(f.1, pat)
    } else {
        contains_seq(f.1, pat)
    }
}

/// The files whose lowercase name ends with / contains `pat`.
pub open spec fn files_matching(fs: Seq<(Seq<char>, Seq<char>)>, pat: Seq<char>, suffix: bool) -> Seq<
    (Seq<char>, Seq<char>),
> {
    keep(fs, |f: (Seq<char>, Seq<char>)| lower_matches(f, pat, suffix))
}

/// The `.gguf` files, narrowed to those whose name holds the quantization when some do.
pub open spec fn gguf_candidates(fs: Seq<(Seq<char>, Seq<char>)>, quant_lower: Option<Seq<char>>) -> Seq<
    (Seq<char>, Seq<char>),
> {
    let g = files_matching(fs, ".gguf"@, true);
    match quant_lower {
        Some(q) => {
            let m = files_matching(g, q, false);
            if m.len() > 0 {
                m
            } else {
                g
            }
        },
        None => g,
    }
}

/// The index of the first file whose name marks the first shard of a split model.
pub open spec fn first_shard_index(fs: Seq<(Seq<char>, Seq<char>)>) -> int
    decreases fs.len(),
{
    if fs.len() == 0 {
        -1
    } else {
        let k = first_shard_index(fs.drop_last());
        if k >= 0 {
            k
        } else if contains_seq(fs.last().0, "-00001-of-"@) {
            fs.len() - 1
        } else {
            -1
        }
    }
}

/// The chosen model file: the first shard of a sharded model, else the sole candidate,
/// else none.
pub open spec fn chosen_gguf(fs: Seq<(Seq<char>, Seq<char>)>, quant_lower: Option<Seq<char>>) -> Option<
    Seq<char>,
> {
    let g = gguf_candidates(fs, quant_lower);
    let k = first_shard_index(g);
    if k >= 0 {
        Some(g[k].0)
    } else if g.len() == 1 {
        Some(g[0].0)
    } else {
        None
    }
}

/// File names paired with their Unicode lowercase forms.
pub open spec fn lowered(names: Seq<Seq<char>>) -> Seq<(Seq<char>, Seq<char>)> {
    Seq::new(names.len(), |i: int| (names[i], unicode_lowercase(names[i])))
}

/// What `first_shard_index` finds.
proof fn lemma_first_shard_index(fs: Seq<(Seq<char>, Seq<char>)>)
    ensures
        -1 <= first_shard_index(fs) < fs.len(),
        first_shard_index(fs) >= 0 ==> contains_seq(fs[first_shard_index(fs)].0, "-00001-of-"@),
        forall|j: int|
            0 <= j < fs.len() && (first_shard_index(fs) < 0 || j < first_shard_index(fs)) ==> !contains_seq(
                (#[trigger] fs[j]).0,
                "-00001-of-"@,
            ),
    decreases fs.len(),
{
    if fs.len() > 0 {
        let t = fs.drop_last();
        lemma_first_shard_index(t);
        assert forall|j: int|
            0 <= j < fs.len() && (first_shard_index(fs) < 0 || j < first_shard_index(fs)) implies !contains_seq(
            (#[trigger] fs[j]).0,
            "-00001-of-"@,
        ) by {
            if j < fs.len() - 1 {
                assert(t[j] == fs[j]);
            }
        }
        if first_shard_index(t) >= 0 {
            assert(t[first_shard_index(t)] == fs[first_shard_index(t)]);
        }
    }
}

/// What `keep` keeps: exactly the items of `s` that satisfy `p`, never more than `s` has.
pub proof fn lemma_keep<A>(s: Seq<A>, p: spec_fn(A) -> bool)
    ensures
        keep(s, p).len() <= s.len(),
        forall|i: int| 0 <= i < keep(s, p).len() ==> p(#[trigger] keep(s, p)[i]) && s.contains(keep(s, p)[i]),
        forall|x: A| #[trigger] keep(s, p).contains(x) <==> (s.contains(x) && p(x)),
    decreases s.len(),
{
    if s.len() > 0 {
        let t = s.drop_last();
        lemma_keep(t, p);
        let k = keep(s, p);
        let kt = keep(t, p);
        assert forall|i: int| 0 <= i < k.len() implies p(#[trigger] k[i]) && s.contains(k[i]) by {
            if i < kt.len() {
                assert(k[i] == kt[i]);
                assert(t.contains(kt[i]));
                let j = choose|j: int| 0 <= j < t.len() && t[j] == kt[i];
                assert(s[j] == t[j]);
            } else {
                assert(k[i] == s.last());
                assert(s[s.len() - 1] == s.last());
            }
        }
        assert forall|x: A| #[trigger] k.contains(x) <==> (s.contains(x) && p(x)) by {
            if k.contains(x) {
                let i = choose|i: int| 0 <= i < k.len() && k[i] == x;
                assert(p(k[i]) && s.contains(k[i]));
            }
            if s.contains(x) && p(x) {
                let j = choose|j: int| 0 <= j < s.len() && s[j] == x;
                if j < t.len() {
                    assert(t[j] == x);
                    assert(t.contains(x));
                    assert(kt.contains(x));
                    let i = choose|i: int| 0 <= i < kt.len() && kt[i] == x;
                    assert(k[i] == kt[i]);
                } else {
                    assert(x == s.last());
                    assert(k[kt.len() as int] == x);
                }
            }
        }
    }
}

/// The whole model-file rule. The `.gguf` files are exactly the listed files whose
/// lowercase name ends with ".gguf". With a quantization that some of them contain (in
/// lowercase), the candidates are exactly those; otherwise they are all the `.gguf`
/// files. The first candidate whose name holds "-00001-of-" is chosen; without one, the
/// sole candidate is chosen, and with several (or none) nothing is.
pub proof fn law_gguf_choice_rule(fs: Seq<(Seq<char>, Seq<char>)>, quant_lower: Option<Seq<char>>)
    ensures
        forall|x: (Seq<char>, Seq<char>)| #[trigger] files_matching(fs, ".gguf"@, true).contains(x) <==> (
            fs.contains(x) && ends_with(x.1, ".gguf"@)),
        quant_lower is None ==> gguf_candidates(fs, quant_lower) == files_matching(fs, ".gguf"@, true),
        quant_lower matches Some(q) ==> {
            let g = files_matching(fs, ".gguf"@, true);
            let k = gguf_candidates(fs, quant_lower);
            &&& (exists|x: (Seq<char>, Seq<char>)| #[trigger] g.contains(x) && contains_seq(x.1, q)) ==> (
                forall|x: (Seq<char>, Seq<char>)| #[trigger] k.contains(x) <==> (g.contains(x) && contains_seq(x.1, q)))
            &&& !(exists|x: (Seq<char>, Seq<char>)| #[trigger] g.contains(x) && contains_seq(x.1, q)) ==> k == g
        },
        forall|j: int|
            0 <= j < gguf_candidates(fs, quant_lower).len() && contains_seq(
                (#[trigger] gguf_candidates(fs, quant_lower)[j]).0,
                "-00001-of-"@,
            ) && (forall|i: int| 0 <= i < j ==> !contains_seq(gguf_candidates(fs, quant_lower)[i].0, "-00001-of-"@))
                ==> chosen_gguf(fs, quant_lower) == Some(gguf_candidates(fs, quant_lower)[j].0),
        (forall|i: int|
            0 <= i < gguf_candidates(fs, quant_lower).len() ==> !contains_seq(
                (#[trigger] gguf_candidates(fs, quant_lower)[i]).0,
                "-00001-of-"@,
            )) ==> chosen_gguf(fs, quant_lower) == (if gguf_candidates(fs, quant_lower).len() == 1 {
            Some(gguf_candidates(fs, quant_lower)[0].0)
        } else {
            None
        }),
{
    let g = files_matching(fs, ".gguf"@, true);
    lemma_keep(fs, |f: (Seq<char>, Seq<char>)| lower_matches(f, ".gguf"@, true));
    if let Some(q) = quant_lower {
        let m = files_matching(g, q, false);
        lemma_keep(g, |f: (Seq<char>, Seq<char>)| lower_matches(f, q, false));
        if exists|x: (Seq<char>, Seq<char>)| #[trigger] g.contains(x) && contains_seq(x.1, q) {
            let x = choose|x: (Seq<char>, Seq<char>)| #[trigger] g.contains(x) && contains_seq(x.1, q);
            assert(m.contains(x));
            assert(m.len() > 0);
        } else {
            if m.len() > 0 {
                assert(m.contains(m[0]));
            }
        }
    }
    let k = gguf_candidates(fs, quant_lower);
    lemma_first_shard_index(k);
}

/// The chosen model file is always one of the listed files, and its lowercase name ends
/// with ".gguf".
pub proof fn law_chosen_gguf_is_listed_gguf(fs: Seq<(Seq<char>, Seq<char>)>, quant_lower: Option<Seq<char>>)
    ensures
        chosen_gguf(fs, quant_lower) matches Some(n) ==> exists|i: int|
            0 <= i < fs.len() && (#[trigger] fs[i]).0 == n && ends_with(fs[i].1, ".gguf"@),
{
    let g0 = files_matching(fs, ".gguf"@, true);
    let p0 = |f: (Seq<char>, Seq<char>)| lower_matches(f, ".gguf"@, true);
    lemma_keep(fs, p0);
    let g = gguf_candidates(fs, quant_lower);
    if let Some(q) = quant_lower {
        lemma_keep(g0, |f: (Seq<char>, Seq<char>)| lower_matches(f, q, false));
    }
    assert forall|k: int| 0 <= k < g.len() implies (exists|i: int|
        0 <= i < fs.len() && (#[trigger] fs[i]).0 == (#[trigger] g[k]).0 && ends_with(fs[i].1, ".gguf"@)) by {
        let e = g[k];
        let k0 = if g == g0 {
            k
        } else {
            let q = quant_lower->0;
            let m = files_matching(g0, q, false);
            assert(g == m);
            assert(g0.contains(m[k]));
            choose|j: int| 0 <= j < g0.len() && g0[j] == m[k]
        };
        assert(g0[k0] == e);
        assert(p0(g0[k0]));
        assert(fs.contains(g0[k0]));
        let i = choose|i: int| 0 <= i < fs.len() && fs[i] == g0[k0];
        assert(fs[i].0 == e.0 && ends_with(fs[i].1, ".gguf"@));
    }
    lemma_first_shard_index(g);
    let k = first_shard_index(g);
    if k >= 0 {
        assert(0 <= k < g.len());
    } else if g.len() == 1 {
        assert(0 <= 0 < g.len());
    }
}

/// Clones a (name, lowercase name) pair.
fn clone_pair(p: &(String, String)) -> (r: (String, String))
    ensures
        r.0@ == p.0@ && r.1@ == p.1@,
{
    (p.0.clone(), p.1.clone())
}

/// The files whose lowercase name ends with (`suffix`) or contains `pat`, in order.
fn keep_matching(fs: &Vec<(String, String)>, pat: &str, suffix: bool) -> (r: Vec<(String, String)>)
    ensures
        pair_views(r@) == files_matching(pair_views(fs@), pat@, suffix),
{
    let ghost vs = pair_views(fs@);
    let ghost pred = |f: (Seq<char>, Seq<char>)| lower_matches(f, pat@, suffix);
    let pc = chars_of(pat);
    let mut out: Vec<(String, String)> = Vec::new();
    let mut i: usize = 0;
    assert(vs.take(0) =~= Seq::<(Seq<char>, Seq<char>)>::empty());
    while i < fs.len()
        invariant
            i <= fs@.len(),
            vs == pair_views(fs@),
            pc@ == pat@,
            pred == (|f: (Seq<char>, Seq<char>)| lower_matches(f, pat@, suffix)),
            pair_views(out@) == keep(vs.take(i as int), pred),
        decreases fs.len() - i,
    {
        assert(vs.take(i + 1).drop_last() =~= vs.take(i as int));
        assert(vs.take(i + 1).last() == vs[i as int]);
        let lc = chars_of(fs[i].1.as_str());
        let hit = if suffix {
            has_suffix(&lc, &pc)
        } else {
            contains_chars(&lc, &pc)
        };
        assert(hit == pred(vs[i as int]));
        let ghost before = out@;
        if hit {
            let c = clone_pair(&fs[i]);
            out.push(c);
            assert(pair_views(out@) =~= pair_views(before).push(vs[i as int]));
        }
        i = i + 1;
        assert(pair_views(out@) =~= keep(vs.take(i as int), pred));
    }
    assert(vs.take(vs.len() as int) =~= vs);
    out
}

/// Picks the model file from (name, lowercase name) pairs of a directory listing, given
/// the lowercase quantization: `.gguf` files only, narrowed by the quantization when it
/// matches some, then the first shard of a sharded model, else the sole file.
pub fn choose_gguf(files: &Vec<(String, String)>, quant_lower: Option<&str>) -> (r: Option<String>)
    ensures
        opt_string_view(r) == chosen_gguf(pair_views(files@), opt_str_view(quant_lower)),
{
    let ghost vs = pair_views(files@);
    let mut g = keep_matching(files, ".gguf", true);
    if let Some(q) = quant_lower {
        let m = keep_matching(&g, q, false);
        if m.len() > 0 {
            g = m;
        }
    }
    let ghost gv = pair_views(g@);
    assert(gv == gguf_candidates(vs, opt_str_view(quant_lower)));
    proof {
        lemma_first_shard_index(gv);
    }
    let shard = chars_of("-00001-of-");
    let mut i: usize = 0;
    while i < g.len()
        invariant
            i <= g@.len(),
            gv == pair_views(g@),
            gv == gguf_candidates(pair_views(files@), opt_str_view(quant_lower)),
            shard@ == "-00001-of-"@,
            forall|j: int| 0 <= j < i ==> !contains_seq((#[trigger] gv[j]).0, "-00001-of-"@),
        decreases g.len() - i,
    {
        let nc = chars_of(g[i].0.as_str());
        if contains_chars(&nc, &shard) {
            assert(gv[i as int].0 == g@[i as int].0@);
            proof {
                lemma_first_shard_index(gv);
            }
            assert(first_shard_index(gv) == i);
            return Some(g[i].0.clone());
        }
        i = i + 1;
    }
    assert(first_shard_index(gv) < 0);
    if g.len() == 1 {
        Some(g[0].0.clone())
    } else {
        None
    }
}

/// Pick the GGUF from a directory listing: filter by `quant` substring when given, then
/// prefer the first shard of a sharded model (`*-00001-of-*.gguf`), else the sole `.gguf`.
/// Names are compared in Unicode lowercase.
pub fn pick_gguf(names: Vec<String>, quant: Option<&str>) -> (r: Option<String>)
    ensures
        opt_string_view(r) == chosen_gguf(
            lowered(string_views(names@)),
            match quant {
                Some(q) => Some(unicode_lowercase(q@)),
                None => None,
            },
        ),
{
    let ghost ns = string_views(names@);
    let mut files: Vec<(String, String)> = Vec::new();
    for name in it: names
        invariant
            it.seq() == names@,
            ns == string_views(names@),
            pair_views(files@) == lowered(ns).take(it.index() as int),
    {
        let ghost k = it.index() as int;
        let lower = to_lowercase(name.as_str());
        let ghost before = files@;
        let ghost nv = name@;
        let ghost lv = lower@;
        assert(nv == ns[k]);
        files.push((name, lower));
        assert(pair_views(files@) =~= pair_views(before).push((nv, lv)));
        assert(lowered(ns).take(k + 1) =~= lowered(ns).take(k).push((nv, lv)));
    }
    assert(lowered(ns).take(ns.len() as int) =~= lowered(ns));
    match quant {
        Some(q) => {
            let ql = to_lowercase(q);
            choose_gguf(&files, Some(ql.as_str()))
        },
        None => choose_gguf(&files, None),
    }
}

// ---------------------------------------------------------------------------
// Launching llama-server
// ---------------------------------------------------------------------------

/// A request to launch `llama-server`: the model, by Hugging Face reference or local
/// path, and the launch levers.
pub struct LaunchRequest {
    pub model_hf: Option<String>,
    pub model_path: Option<String>,
    pub ngl: Option<u32>,
    pub tensor_split: Option<String>,
    pub main_gpu: Option<u32>,
    pub device: Option<String>,
    pub cpu_moe: Option<String>,
    pub ctx: Option<u32>,
    pub hf_cache_dir: Option<String>,
    pub no_mmap: Option<bool>,
    pub flash_attn: Option<String>,
    pub threads: Option<u32>,
    pub threads_batch: Option<u32>,
    pub cache_type_k: Option<String>,
    pub cache_type_v: Option<String>,
}

/// The MoE offload a request asks for: "all", "off" (or nothing), or a layer count;
/// anything else is off.
pub open spec fn cpu_moe_choice(v: Option<Seq<char>>) -> CpuMoe {
    match v {
        None => CpuMoe::Off,
        Some(t) => if t == "all"@ {
            CpuMoe::All
        } else if t == "off"@ {
            CpuMoe::Off
        } else {
            match parse_unsigned(t, u32::MAX as nat) {
                Some(n) => CpuMoe::NLayers(n as u32),
                None => CpuMoe::Off,
            }
        },
    }
}

/// The `llama-server` arguments for a request, a resolved model and the rpc endpoints:
/// it listens on all interfaces at `llama_port`.
pub open spec fn launch_args(
    req: LaunchRequest,
    model: ModelRef,
    eps: Seq<Seq<char>>,
    llama_port: u16,
) -> Seq<Seq<char>> {
    llama_args_of(
        model,
        eps,
        req.ngl,
        opt_string_view(req.tensor_split),
        req.main_gpu,
        opt_string_view(req.device),
        cpu_moe_choice(opt_string_view(req.cpu_moe)),
        req.ctx,
        req.no_mmap.unwrap_or(false),
        opt_string_view(req.flash_attn),
        req.threads,
        req.threads_batch,
        opt_string_view(req.cache_type_k),
        opt_string_view(req.cache_type_v),
        "0.0.0.0"@,
        llama_port,
    )
}

/// Borrows the text of an optional string.
pub fn opt_as_str(o: &Option<String>) -> (r: Option<&str>)
    ensures
        opt_str_view(r) == opt_string_view(*o),
{
    match o {
        Some(s) => Some(s.as_str()),
        None => None,
    }
}

/// Copies an optional string.
pub fn clone_opt(o: &Option<String>) -> (r: Option<String>)
    ensures
        r == *o,
{
    match o {
        Some(s) => Some(s.clone()),
        None => None,
    }
}

/// The MoE offload a request's `cpu_moe` text asks for.
pub fn parse_cpu_moe(v: Option<&str>) -> (c: CpuMoe)
    ensures
        c == cpu_moe_choice(opt_str_view(v)),
{
    match v {
        None => CpuMoe::Off,
        Some(t) => {
            if same_text(t, "all") {
                CpuMoe::All
            } else if same_text(t, "off") {
                CpuMoe::Off
            } else {
                let cs = chars_of(t);
                match parse_decimal(&cs, u32::MAX as u64) {
                    Some(n) => CpuMoe::NLayers(n as u32),
                    None => CpuMoe::Off,
                }
            }
        },
    }
}

/// Build the `llama-server` ProcSpec from a launch request + resolved model/endpoints.
pub fn build_launch_spec(
    req: &LaunchRequest,
    model: &ModelRef,
    binary: &str,
    llama_port: u16,
    eps: &[String],
) -> (spec: ProcSpec)
    ensures
        spec.program@ == binary@,
        string_views(spec.args@) == launch_args(*req, *model, string_views(eps@), llama_port),
{
    let cpu_moe = parse_cpu_moe(opt_as_str(&req.cpu_moe));
    let opts = LlamaServerOpts {
        binary,
        model,
        rpc_endpoints: eps,
        ngl: req.ngl,
        tensor_split: opt_as_str(&req.tensor_split),
        main_gpu: req.main_gpu,
        device: opt_as_str(&req.device),
        cpu_moe: &cpu_moe,
        ctx: req.ctx,
        no_mmap: req.no_mmap.unwrap_or(false),
        flash_attn: opt_as_str(&req.flash_attn),
        threads: req.threads,
        threads_batch: req.threads_batch,
        cache_type_k: opt_as_str(&req.cache_type_k),
        cache_type_v: opt_as_str(&req.cache_type_v),
        host: "0.0.0.0",
        port: llama_port,
    };
    llama_server_spec(&opts)
}

/// A profile's model is a local path when it clearly is one (absolute, `./`-relative or
/// a `.gguf` file); otherwise it is a Hugging Face reference.
pub open spec fn is_model_path(m: Seq<char>) -> bool {
    starts_with(m, "/"@) || starts_with(m, "./"@) || ends_with(m, ".gguf"@)
}

/// The launch request a saved profile stands for.
pub fn launch_request_from_profile(p: &Profile) -> (r: LaunchRequest)
    ensures
        is_model_path(p.model@) ==> r.model_hf is None && r.model_path == Some(p.model),
        !is_model_path(p.model@) ==> r.model_hf == Some(p.model) && r.model_path is None,
        r.ngl == p.ngl && r.tensor_split == p.tensor_split && r.main_gpu == p.main_gpu,
        r.device == p.device && r.cpu_moe == p.cpu_moe && r.ctx == p.ctx,
        r.hf_cache_dir == p.hf_cache_dir && r.no_mmap == Some(p.no_mmap),
        r.flash_attn == p.flash_attn && r.threads == p.threads && r.threads_batch == p.threads_batch,
        r.cache_type_k == p.cache_type_k && r.cache_type_v == p.cache_type_v,
{
    let m = chars_of(p.model.as_str());
    let is_path = has_prefix(&m, &chars_of("/")) || has_prefix(&m, &chars_of("./")) || has_suffix(
        &m,
        &chars_of(".gguf"),
    );
    LaunchRequest {
        model_hf: if is_path {
            None
        } else {
            Some(p.model.clone())
        },
        model_path: if is_path {
            Some(p.model.clone())
        } else {
            None
        },
        ngl: p.ngl,
        tensor_split: clone_opt(&p.tensor_split),
        main_gpu: p.main_gpu,
        device: clone_opt(&p.device),
        cpu_moe: clone_opt(&p.cpu_moe),
        ctx: p.ctx,
        hf_cache_dir: clone_opt(&p.hf_cache_dir),
        no_mmap: Some(p.no_mmap),
        flash_attn: clone_opt(&p.flash_attn),
        threads: p.threads,
        threads_batch: p.threads_batch,
        cache_type_k: clone_opt(&p.cache_type_k),
        cache_type_v: clone_opt(&p.cache_type_v),
    }
}

/// Where a launch's model comes from, before the file system is consulted.
pub enum ModelChoice {
    /// A Hugging Face `org/repo[:quant]` reference (trimmed).
    Hf(String),
    /// A local file or directory (trimmed).
    Path(String),
}

/// No text, or only whitespace.
pub open spec fn blank(v: Option<Seq<char>>) -> bool {
    v is None || trim(v->0).len() == 0
}

/// Whether a string is empty after trimming.
fn is_blank(v: &Option<String>) -> (b: bool)
    ensures
        b == blank(opt_string_view(*v)),
{
    match v {
        Some(s) => {
            let cs = chars_of(s.as_str());
            trim_chars(&cs).len() == 0
        },
        None => true,
    }
}

/// The model a launch names: a non-blank Hugging Face reference wins, else a non-blank
/// path; with neither, the request is refused.
pub fn launch_model_choice(req: &LaunchRequest) -> (r: Result<ModelChoice, String>)
    ensures
        !blank(opt_string_view(req.model_hf)) ==> (r matches Ok(ModelChoice::Hf(h)) && h@ == trim(
            req.model_hf->0@,
        )),
        blank(opt_string_view(req.model_hf)) && !blank(opt_string_view(req.model_path)) ==> (r matches Ok(
            ModelChoice::Path(p),
        ) && p@ == trim(req.model_path->0@)),
        blank(opt_string_view(req.model_hf)) && blank(opt_string_view(req.model_path)) ==> (r matches Err(
            e,
        ) && e@ == "model_hf or model_path required"@),
{
    if !is_blank(&req.model_hf) {
        let h = match &req.model_hf {
            Some(h) => h,
            None => {
                return Err(owned("model_hf or model_path required"));
            },
        };
        let cs = chars_of(h.as_str());
        return Ok(ModelChoice::Hf(string_of(&trim_chars(&cs))));
    }
    if !is_blank(&req.model_path) {
        let p = match &req.model_path {
            Some(p) => p,
            None => {
                return Err(owned("model_hf or model_path required"));
            },
        };
        let cs = chars_of(p.as_str());
        return Ok(ModelChoice::Path(string_of(&trim_chars(&cs))));
    }
    Err(owned("model_hf or model_path required"))
}

/// What a user-supplied model path resolves to, given what the file system says of it:
/// a file is used as-is; a missing path is refused; a directory gives the model file
/// found inside it, or is refused when there is no single one.
pub fn model_path_outcome(path: &str, is_file: bool, exists: bool, found: Option<String>) -> (r: Result<
    String,
    String,
>)
    ensures
        is_file ==> (r matches Ok(m) && m@ == path@),
        !is_file && !exists ==> (r matches Err(e) && e@ == "model path does not exist: "@ + path@),
        !is_file && exists ==> match found {
            Some(f) => r matches Ok(m) && m@ == f@,
            None => r matches Err(e) && e@ == "no single .gguf in "@ + path@
                + " — point at the exact .gguf file (none, or several quants)"@,
        },
{
    if is_file {
        return Ok(owned(path));
    }
    if !exists {
        let mut e = owned("model path does not exist: ");
        e.append(path);
        return Err(e);
    }
    match found {
        Some(f) => Ok(f),
        None => {
            let mut e = owned("no single .gguf in ");
            e.append(path);
            e.append(" — point at the exact .gguf file (none, or several quants)");
            Err(e)
        },
    }
}

/// The model a Hugging Face reference resolves to: the locally cached file when there is
/// one (no download), else the reference itself.
pub fn hf_model_ref(hf: String, cached: Option<String>) -> (m: ModelRef)
    ensures
        match cached {
            Some(c) => m == ModelRef::Local(c),
            None => m == ModelRef::Hf(hf),
        },
{
    match cached {
        Some(c) => ModelRef::Local(c),
        None => ModelRef::Hf(hf),
    }
}

/// The locally cached file a resolution settled on, if it settled on one.
pub open spec fn cached_file(r: Result<ModelRef, String>) -> Option<String> {
    match r {
        Ok(ModelRef::Local(x)) => Some(x),
        _ => None,
    }
}

/// A resolution as the file path it settled on, or its error.
pub open spec fn local_file(r: Result<ModelRef, String>) -> Result<String, String> {
    match r {
        Ok(ModelRef::Local(x)) => Ok(x),
        Ok(ModelRef::Hf(h)) => Err(h),
        Err(e) => Err(e),
    }
}

/// Resolves the model a launch names. A non-blank Hugging Face reference wins over a path:
/// it is trimmed, and when `in_cache` finds a copy of it under the cache directory, that
/// file is loaded instead of downloading. Otherwise a non-blank path is trimmed and
/// resolved by `resolve_path`. With neither, the request is refused. The two lookups read
/// the file system, so they are taken as given: the contract says which lookup is asked
/// what, and what follows from each answer.
pub fn resolve_launch_model<F, G>(
    req: &LaunchRequest,
    cache_dir: Option<String>,
    in_cache: F,
    resolve_path: G,
) -> (r: Result<ModelRef, String>) where
    F: Fn(String, String) -> Option<String>,
    G: Fn(String) -> Result<String, String>,

    requires
        forall|c: String, h: String| #[trigger] in_cache.requires((c, h)),
        forall|p: String| #[trigger] resolve_path.requires((p,)),
    ensures
        !blank(opt_string_view(req.model_hf)) ==> {
            &&& r is Ok
            &&& (r matches Ok(ModelRef::Hf(h)) ==> h@ == trim(req.model_hf->0@))
            &&& (cache_dir is None ==> r matches Ok(ModelRef::Hf(_)))
            &&& (cache_dir matches Some(c) ==> exists|h: String|
                h@ == trim(req.model_hf->0@) && #[trigger] call_ensures(in_cache, (c, h), cached_file(r)))
        },
        blank(opt_string_view(req.model_hf)) && !blank(opt_string_view(req.model_path)) ==> {
            &&& !(r matches Ok(ModelRef::Hf(_)))
            &&& exists|p: String|
                p@ == trim(req.model_path->0@) && #[trigger] call_ensures(resolve_path, (p,), local_file(r))
        },
        blank(opt_string_view(req.model_hf)) && blank(opt_string_view(req.model_path)) ==> (r matches Err(
            e,
        ) && e@ == "model_hf or model_path required"@),
{
    match launch_model_choice(req) {
        Err(e) => Err(e),
        Ok(ModelChoice::Hf(h)) => {
            match cache_dir {
                Some(c) => {
                    let found = in_cache(c, h.clone());
                    Ok(hf_model_ref(h, found))
                },
                None => Ok(ModelRef::Hf(h)),
            }
        },
        Ok(ModelChoice::Path(p)) => {
            let ghost gp = p;
            let out = resolve_path(p);
            assert(call_ensures(resolve_path, (gp,), out));
            match out {
                Ok(x) => Ok(ModelRef::Local(x)),
                Err(e) => Err(e),
            }
        },
    }
}

/// The HF cache directory of a launch: the request's own (trimmed, when not blank), else
/// the host's configured one.
pub open spec fn effective_cache_dir_of(req_dir: Option<Seq<char>>, cfg_dir: Option<Seq<char>>) -> Option<
    Seq<char>,
> {
    if !blank(req_dir) {
        Some(trim(req_dir->0))
    } else {
        cfg_dir
    }
}

/// Effective HF cache dir: per-launch field overrides the host config default.
pub fn effective_cache_dir(req_dir: &Option<String>, cfg_dir: &Option<String>) -> (r: Option<String>)
    ensures
        opt_string_view(r) == effective_cache_dir_of(opt_string_view(*req_dir), opt_string_view(*cfg_dir)),
{
    if !is_blank(req_dir) {
        match req_dir {
            Some(d) => {
                let cs = chars_of(d.as_str());
                return Some(string_of(&trim_chars(&cs)));
            },
            None => {},
        }
    }
    clone_opt(cfg_dir)
}

/// The `llama-server` binary: `<llama_dir>/llama-server`, else bare `llama-server`
/// (looked up on PATH).
pub fn llama_server_binary(llama_dir: &Option<String>) -> (b: String)
    ensures
        b@ == match opt_string_view(*llama_dir) {
            Some(d) => d + "/llama-server"@,
            None => "llama-server"@,
        },
{
    match llama_dir {
        Some(d) => {
            let mut b = d.clone();
            b.append("/llama-server");
            b
        },
        None => owned("llama-server"),
    }
}

/// The OpenAI-compatible API a launched `llama-server` serves.
pub fn openai_url(llama_port: u16) -> (u: String)
    ensures
        u@ == "http://localhost:"@ + decimal(llama_port as nat) + "/v1"@,
{
    let mut u = owned("http://localhost:");
    u.append(decimal_string(llama_port as u64).as_str());
    u.append("/v1");
    u
}

/// The rpc endpoints the polled nodes report, in node order.
pub open spec fn reported_endpoints(nodes: Seq<NodeSnapshot>) -> Seq<Seq<char>>
    decreases nodes.len(),
{
    if nodes.len() == 0 {
        Seq::empty()
    } else {
        reported_endpoints(nodes.drop_last()) + match nodes.last().stats {
            Some(st) => match st.rpc_endpoint {
                Some(ep) => seq![ep@],
                None => Seq::empty(),
            },
            None => Seq::empty(),
        }
    }
}

/// The rpc endpoints of the polled nodes that report one.
pub fn rpc_endpoints_of(nodes: &[NodeSnapshot]) -> (eps: Vec<String>)
    ensures
        string_views(eps@) == reported_endpoints(nodes@),
{
    let mut eps: Vec<String> = Vec::new();
    let mut i: usize = 0;
    let n = nodes.len();
    assert(nodes@.take(0) =~= Seq::<NodeSnapshot>::empty());
    while i < n
        invariant
            n == nodes@.len(),
            i <= n,
            string_views(eps@) == reported_endpoints(nodes@.take(i as int)),
        decreases n - i,
    {
        assert(nodes@.take(i + 1).drop_last() =~= nodes@.take(i as int));
        assert(nodes@.take(i + 1).last() == nodes@[i as int]);
        let ghost before = eps@;
        match &nodes[i].stats {
            Some(st) => match &st.rpc_endpoint {
                Some(ep) => {
                    eps.push(ep.clone());
                    assert(string_views(eps@) =~= string_views(before).push(ep@));
                },
                None => {},
            },
            None => {},
        }
        i = i + 1;
        assert(string_views(eps@) =~= reported_endpoints(nodes@.take(i as int)));
    }
    assert(nodes@.take(n as int) =~= nodes@);
    eps
}

// ---------------------------------------------------------------------------
// Readiness, workers, settings and profiles
// ---------------------------------------------------------------------------

/// The readiness report for a launched `llama-server`, from the HTTP status its `/health`
/// answered with (none when it did not answer): ready only on a success status.
pub open spec fn health_of(status: Option<u16>) -> (bool, Seq<char>) {
    match status {
        Some(code) => if 200 <= code <= 299 {
            (true, "model ready"@)
        } else {
            (false, "loading model (HTTP "@ + decimal(code as nat) + ")"@)
        },
        None => (false, "starting — llama-server not responding yet"@),
    }
}

/// Readiness of a launched `llama-server`, judged from its `/health` answer: it returns 200
/// only once the model is loaded (503 while loading).
pub fn health_report(status: Option<u16>) -> (r: (bool, String))
    ensures
        (r.0, r.1@) == health_of(status),
{
    match status {
        Some(code) => {
            if 200 <= code && code <= 299 {
                (true, owned("model ready"))
            } else {
                let mut d = owned("loading model (HTTP ");
                d.append(decimal_string(code as u64).as_str());
                d.append(")");
                (false, d)
            }
        },
        None => (false, owned("starting — llama-server not responding yet")),
    }
}

/// The `rpc-server` command a worker start request runs: it listens on all interfaces at
/// `rpc_port`, pinned to the requested device, else to the worker's configured filter.
pub fn worker_start_spec(
    binary: &str,
    rpc_port: u16,
    device: Option<String>,
    config: &Config,
    apple_silicon: bool,
) -> (spec: ProcSpec)
    ensures
        spec.program@ == binary@,
        string_views(spec.args@) == seq!["-H"@, "0.0.0.0"@, "-p"@, decimal(rpc_port as nat)]
            + text_flag(
            "-d"@,
            match device {
                Some(d) => Some(d@),
                None => spec_rpc_device_filter(config@, apple_silicon),
            },
        ),
{
    let dev = match device {
        Some(d) => Some(d),
        None => config.rpc_device_filter(apple_silicon),
    };
    rpc_server_spec(binary, "0.0.0.0", rpc_port, opt_as_str(&dev))
}

/// The `rpc-server` a `--worker` node starts on boot: the configured binary on all
/// interfaces at the configured rpc port, serving every device.
pub fn worker_autostart_spec(config: &Config) -> (spec: ProcSpec)
    ensures
        spec.program@ == spec_rpc_binary_path(config@),
        string_views(spec.args@) == rpc_server_args("0.0.0.0"@, config.rpc_port, None),
{
    let bin = config.rpc_binary_path();
    rpc_server_spec(bin.as_str(), "0.0.0.0", config.rpc_port, None)
}

/// Copies the node list.
fn clone_nodes(ns: &Vec<NodeEntry>) -> (r: Vec<NodeEntry>)
    ensures
        r@ == ns@,
{
    let mut r: Vec<NodeEntry> = Vec::new();
    let mut i: usize = 0;
    while i < ns.len()
        invariant
            i <= ns@.len(),
            r@ == ns@.take(i as int),
        decreases ns.len() - i,
    {
        r.push(ns[i].clone());
        assert(r@ =~= ns@.take(i + 1));
        i = i + 1;
    }
    assert(ns@.take(ns@.len() as int) =~= ns@);
    r
}

/// The settings a settings save leaves: the submitted ones, except that the node list is
/// kept (it is managed through the node endpoints only) and a blank node name keeps the
/// current one.
pub open spec fn merged_config(current: ConfigView, submitted: ConfigView) -> ConfigView {
    ConfigView {
        nodes: current.nodes,
        node_name: if trim(submitted.node_name).len() == 0 {
            current.node_name
        } else {
            submitted.node_name
        },
        ..submitted
    }
}

/// Merges submitted settings into the current ones; also says whether the UI port
/// changed from the one the server is bound to, which takes a restart.
pub fn merge_config(current: &Config, submitted: Config, bound_ui_port: u16) -> (r: (Config, bool))
    ensures
        r.0@ == merged_config(current@, submitted@),
        r.1 == (submitted.ui_port != bound_ui_port),
{
    let restart_required = submitted.ui_port != bound_ui_port;
    let mut merged = submitted;
    merged.nodes = clone_nodes(&current.nodes);
    let name = chars_of(merged.node_name.as_str());
    if trim_chars(&name).len() == 0 {
        merged.node_name = current.node_name.clone();
    }
    (merged, restart_required)
}

/// A profile as saved: refused without a name; a blank id becomes the slug of the name;
/// stamped with the save time.
pub fn prepare_profile(p: Profile, now_unix: u64) -> (r: Result<Profile, String>)
    ensures
        trim(p.name@).len() == 0 ==> (r matches Err(e) && e@ == "profile name required"@),
        trim(p.name@).len() != 0 ==> (r matches Ok(q) && q == (Profile {
            id: q.id,
            updated_at: now_unix,
            ..p
        }) && q.id@ == (if trim(p.id@).len() == 0 {
            spec_slugify(p.name@)
        } else {
            p.id@
        })),
{
    let name = chars_of(p.name.as_str());
    if trim_chars(&name).len() == 0 {
        return Err(owned("profile name required"));
    }
    let mut q = p;
    let id = chars_of(q.id.as_str());
    if trim_chars(&id).len() == 0 {
        q.id = slugify(q.name.as_str());
    }
    q.updated_at = now_unix;
    Ok(q)
}

/// The id a saved profile is stored under: its own, or the slug of its name when blank.
pub open spec fn stored_id(p: Profile) -> Seq<char> {
    if trim(p.id@).len() == 0 {
        spec_slugify(p.name@)
    } else {
        p.id@
    }
}

/// Saves a submitted profile into the store: without a name it is refused and the store
/// is left as it was; otherwise it is stamped with the save time and stored under
/// `stored_id`, replacing the profile with that id, and reading that id back gives it.
pub fn save_profile(store: &mut ProfileStore, p: Profile, now_unix: u64) -> (r: Result<(), String>)
    ensures
        trim(p.name@).len() == 0 ==> (r matches Err(e) && e@ == "profile name required"@
            && final(store).profiles@ == old(store).profiles@),
        trim(p.name@).len() != 0 ==> (r is Ok && exists|q: Profile|
            {
                &&& q == (Profile { id: q.id, updated_at: now_unix, ..p })
                &&& q.id@ == stored_id(p)
                &&& final(store).profiles@ == upserted(old(store).profiles@, q)
                &&& profile_with_id(final(store).profiles@, stored_id(p)) == Some(q)
            }),
{
    match prepare_profile(p, now_unix) {
        Err(e) => Err(e),
        Ok(q) => {
            let ghost gq = q;
            proof {
                law_upsert_then_get(store.profiles@, q);
            }
            store.upsert(q);
            assert(final(store).profiles@ == upserted(old(store).profiles@, gq));
            Ok(())
        },
    }
}

// ---------------------------------------------------------------------------
// The cluster as the host reports it
// ---------------------------------------------------------------------------

/// The cluster report: the host itself first (at address "self"), then the polled
/// nodes; the warnings are the version mismatches of the polled nodes against the host.
pub fn cluster_with_self(self_stats: NodeStats, polled: ClusterStatus) -> (c: ClusterStatus)
    ensures
        c.nodes@.len() == polled.nodes@.len() + 1,
        c.nodes@.skip(1) == polled.nodes@,
        c.nodes@[0].entry.name@ == self_stats.name@,
        c.nodes@[0].entry.addr@ == "self"@,
        c.nodes@[0].stats == Some(self_stats),
        c.nodes@[0].reachable,
        c.nodes@[0].error is None,
        string_views(c.warnings@) == spec_version_warnings(
            opt_string_view(self_stats.binary_version),
            polled.nodes@,
        ),
{
    let warnings = version_warnings(opt_as_str(&self_stats.binary_version), polled.nodes.as_slice());
    let name = self_stats.name.clone();
    let snap = NodeSnapshot {
        entry: NodeEntry { name, addr: owned("self") },
        stats: Some(self_stats),
        reachable: true,
        error: None,
    };
    let mut nodes = polled.nodes;
    let ghost before = nodes@;
    nodes.insert(0, snap);
    assert(nodes@.skip(1) =~= before);
    ClusterStatus { nodes, warnings }
}

/// The launch plan for a cluster report: the planner's suggestion, carrying the report's
/// version warnings. None when the cluster's memory figures are too large for the
/// planner's `u64` arithmetic.
pub fn plan_for_cluster(cluster: ClusterStatus, meta: &ModelMeta, ctx: u32) -> (r: Option<Plan>)
    ensures
        r is None <==> !plan_in_range(cluster.nodes@, *meta, ctx),
        r matches Some(p) ==> {
            let nodes = cluster.nodes@;
            &&& p.ngl == plan_ngl(nodes, *meta, ctx)
            &&& opt_string_view(p.tensor_split) == spec_ratio(plan_splits(nodes, *meta, ctx))
            &&& opt_string_view(p.cpu_moe) == plan_cpu_moe(*meta, gpu_pool(nodes) as u64)
            &&& string_views(p.exclude_notes@) == exclude_notes(nodes)
            &&& p.fit.fit == outcome_fit(outcome(nodes, *meta, ctx))
            &&& p.fit.detail@ == plan_detail(nodes, *meta, ctx)
            &&& p.gpu_pool_mib == gpu_pool(nodes)
            &&& p.cpu_pool_mib == host_cpu(nodes)
            &&& p.warnings@ == cluster.warnings@
            &&& opt_string_view(p.flash_attn) == Some("on"@)
            &&& p.no_mmap == plan_no_mmap(nodes, *meta, ctx)
            &&& opt_string_view(p.host_hint) == plan_host_hint(nodes)
            &&& p.remote_cpu_pool_mib == remote_cpu(nodes)
            &&& string_views(p.rpc_cpu_nodes@) == plan_rpc_cpu_nodes(nodes, *meta, ctx)
        },
{
    if !plan_in_range_check(&cluster, meta, ctx) {
        return None;
    }
    let mut plan = suggest_plan(&cluster, meta, ctx);
    plan.warnings = cluster.warnings;
    Some(plan)
}

} // verus!

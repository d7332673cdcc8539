//! Saved launch profiles and their store.
use vstd::prelude::*;
use crate::cluster::NodeEntry;
use crate::text::{ascii_alnum, ascii_lower, chars_of, is_ascii_alnum, push_char, to_ascii_lower, trim_end_char};

verus! {

// ---------------------------------------------------------------------------
// Slugs
// ---------------------------------------------------------------------------

/// The text built so far while slugifying `s`, and whether it ends in a dash that was
/// just added.
pub open spec fn slug_state(s: Seq<char>) -> (Seq<char>, bool)
    decreases s.len(),
{
    if s.len() == 0 {
        (Seq::empty(), false)
    } else {
        let (out, prev_dash) = slug_state(s.drop_last());
        let c = s.last();
        if is_ascii_alnum(c) {
            (out.push(ascii_lower(c)), false)
        } else if out.len() > 0 && !prev_dash {
            (out.push('-'), true)
        } else {
            (out, prev_dash)
        }
    }
}

/// Lowercase, collapse runs of non-alphanumerics to a single '-', trim trailing '-'.
pub open spec fn spec_slugify(s: Seq<char>) -> Seq<char> {
    trim_end_char(slug_state(s).0, '-')
}

/// A slug character: a lowercase ASCII letter, a digit, or '-'.
pub open spec fn is_slug_char(c: char) -> bool {
    let u = c as u32;
    (48 <= u && u <= 57) || (97 <= u && u <= 122) || c == '-'
}

/// A well-formed slug: slug characters only, no leading or trailing '-', no "--".
pub open spec fn is_slug(s: Seq<char>) -> bool {
    &&& forall|i: int| 0 <= i < s.len() ==> is_slug_char(#[trigger] s[i])
    &&& (s.len() > 0 ==> s[0] != '-' && s.last() != '-')
    &&& forall|i: int| 0 <= i < s.len() - 1 ==> !(#[trigger] s[i] == '-' && s[i + 1] == '-')
}

/// Lowercase, collapse runs of non-alphanumerics to a single '-', trim leading/trailing '-'.
pub fn slugify(name: &str) -> (out: String)
    ensures
        out@ == spec_slugify(name@),
{
    let cs = chars_of(name);
    let mut out: Vec<char> = Vec::new();
    let mut prev_dash = false;
    let mut i: usize = 0;
    assert(cs@.take(0) =~= Seq::<char>::empty());
    while i < cs.len()
        invariant
            cs@ == name@,
            i <= cs@.len(),
            (out@, prev_dash) == slug_state(cs@.take(i as int)),
        decreases cs.len() - i,
    {
        assert(cs@.take(i + 1).drop_last() =~= cs@.take(i as int));
        let ch = cs[i];
        if ascii_alnum(ch) {
            out.push(to_ascii_lower(ch));
            prev_dash = false;
        } else if out.len() > 0 && !prev_dash {
            out.push('-');
            prev_dash = true;
        }
        i = i + 1;
    }
    assert(cs@.take(cs@.len() as int) =~= cs@);
    let mut j: usize = out.len();
    assert(out@.take(j as int) =~= out@);
    while j > 0 && out[j - 1] == '-'
        invariant
            j <= out@.len(),
            trim_end_char(out@, '-') == trim_end_char(out@.take(j as int), '-'),
        decreases j,
    {
        assert(out@.take(j as int).drop_last() =~= out@.take(j - 1));
        j = j - 1;
    }
    let mut s = String::new();
    let mut k: usize = 0;
    while k < j
        invariant
            j <= out@.len(),
            k <= j,
            s@ == out@.take(k as int),
        decreases j - k,
    {
        push_char(&mut s, out[k]);
        assert(out@.take(k + 1) =~= out@.take(k as int).push(out@[k as int]));
        k = k + 1;
    }
    proof {
        lemma_trim_end_char_take(out@.take(j as int), '-');
    }
    s
}

/// After trimming, no '-' is left at the end, and the trimmed text is a prefix.
pub proof fn lemma_trim_end_char_take(s: Seq<char>, c: char)
    requires
        s.len() == 0 || s.last() != c,
    ensures
        trim_end_char(s, c) == s,
{
}

/// What slugifying builds before the final trim.
proof fn lemma_slug_state(s: Seq<char>)
    ensures
        ({
            let (out, pd) = slug_state(s);
            &&& forall|i: int| 0 <= i < out.len() ==> is_slug_char(#[trigger] out[i])
            &&& (out.len() > 0 ==> out[0] != '-')
            &&& forall|i: int| 0 <= i < out.len() - 1 ==> !(#[trigger] out[i] == '-' && out[i + 1] == '-')
            &&& pd == (out.len() > 0 && out.last() == '-')
        }),
    decreases s.len(),
{
    if s.len() > 0 {
        lemma_slug_state(s.drop_last());
        let (prev, pd) = slug_state(s.drop_last());
        let c = s.last();
        let (out, _) = slug_state(s);
        if is_ascii_alnum(c) {
            assert(is_slug_char(ascii_lower(c)));
            assert forall|i: int| 0 <= i < out.len() implies is_slug_char(#[trigger] out[i]) by {
                if i < prev.len() {
                    assert(out[i] == prev[i]);
                }
            }
            assert forall|i: int| 0 <= i < out.len() - 1 implies !(#[trigger] out[i] == '-' && out[i
                + 1] == '-') by {
                if i < prev.len() - 1 {
                    assert(out[i] == prev[i] && out[i + 1] == prev[i + 1]);
                }
            }
        } else if prev.len() > 0 && !pd {
            assert forall|i: int| 0 <= i < out.len() implies is_slug_char(#[trigger] out[i]) by {
                if i < prev.len() {
                    assert(out[i] == prev[i]);
                }
            }
            assert forall|i: int| 0 <= i < out.len() - 1 implies !(#[trigger] out[i] == '-' && out[i
                + 1] == '-') by {
                if i < prev.len() - 1 {
                    assert(out[i] == prev[i] && out[i + 1] == prev[i + 1]);
                } else {
                    assert(out[i] == prev.last());
                }
            }
        }
    }
}

/// Trimming a character from the end leaves a prefix that does not end in it.
proof fn lemma_trim_end_char_prefix(s: Seq<char>, c: char)
    ensures
        trim_end_char(s, c).len() <= s.len(),
        trim_end_char(s, c) =~= s.take(trim_end_char(s, c).len() as int),
        trim_end_char(s, c).len() == 0 || trim_end_char(s, c).last() != c,
    decreases s.len(),
{
    if s.len() > 0 && s.last() == c {
        lemma_trim_end_char_prefix(s.drop_last(), c);
    } else {
        assert(s.take(s.len() as int) =~= s);
    }
}

/// What `slugify` returns is always a well-formed slug: lowercase ASCII letters, digits
/// and single dashes, never a dash at either end.
pub proof fn law_slugify_is_slug(s: Seq<char>)
    ensures
        is_slug(spec_slugify(s)),
{
    let (out, _) = slug_state(s);
    lemma_slug_state(s);
    lemma_trim_end_char_prefix(out, '-');
    let r = spec_slugify(s);
    assert forall|i: int| 0 <= i < r.len() implies is_slug_char(#[trigger] r[i]) by {
        assert(r[i] == out[i]);
    }
    if r.len() > 0 {
        assert(r[0] == out[0]);
    }
    assert forall|i: int| 0 <= i < r.len() - 1 implies !(#[trigger] r[i] == '-' && r[i + 1] == '-') by {
        assert(r[i] == out[i] && r[i + 1] == out[i + 1]);
    }
}

/// A well-formed slug slugifies to itself.
pub proof fn law_slug_fixed_point(t: Seq<char>)
    requires
        is_slug(t),
    ensures
        spec_slugify(t) == t,
{
    lemma_slug_prefix_state(t, t.len() as int);
    assert(t.take(t.len() as int) =~= t);
}

/// Slugifying a prefix of a slug reproduces the prefix.
proof fn lemma_slug_prefix_state(t: Seq<char>, k: int)
    requires
        is_slug(t),
        0 <= k <= t.len(),
    ensures
        slug_state(t.take(k)) == (t.take(k), k > 0 && t[k - 1] == '-'),
    decreases k,
{
    if k > 0 {
        lemma_slug_prefix_state(t, k - 1);
        assert(t.take(k).drop_last() =~= t.take(k - 1));
        let c = t[k - 1];
        assert(is_slug_char(c));
        if c != '-' {
            assert(is_ascii_alnum(c));
            assert(ascii_lower(c) == c);
            assert(t.take(k - 1).push(c) =~= t.take(k));
        } else {
            assert(k - 1 > 0);
            assert(t[k - 2] != '-');
            assert(t.take(k - 1).push(c) =~= t.take(k));
        }
    } else {
        assert(t.take(0) =~= Seq::<char>::empty());
    }
}

/// Slugifying twice is the same as slugifying once.
pub proof fn law_slugify_idempotent(s: Seq<char>)
    ensures
        spec_slugify(spec_slugify(s)) == spec_slugify(s),
{
    law_slugify_is_slug(s);
    law_slug_fixed_point(spec_slugify(s));
}

// ---------------------------------------------------------------------------
// Profiles
// ---------------------------------------------------------------------------

/// A saved launch configuration for a model: launch levers, RPC topology and provenance.
/// `tok_s_bits` holds the measured tokens/second as the bit pattern of an `f32`.
#[derive(Clone, PartialEq, Debug)]
pub struct Profile {
    pub id: String,
    pub name: String,
    pub model: String,
    pub ngl: Option<u32>,
    pub tensor_split: Option<String>,
    pub main_gpu: Option<u32>,
    pub device: Option<String>,
    pub cpu_moe: Option<String>,
    pub ctx: Option<u32>,
    pub no_mmap: bool,
    pub flash_attn: Option<String>,
    pub threads: Option<u32>,
    pub threads_batch: Option<u32>,
    pub cache_type_k: Option<String>,
    pub cache_type_v: Option<String>,
    pub hf_cache_dir: Option<String>,
    pub host_label: Option<String>,
    pub tok_s_bits: Option<u32>,
    pub note: Option<String>,
    pub updated_at: u64,
    pub nodes: Vec<NodeEntry>,
}

impl Default for Profile {
    fn default() -> (p: Self)
        ensures
            p.id@ == Seq::<char>::empty(),
            p.name@ == Seq::<char>::empty(),
            p.model@ == Seq::<char>::empty(),
            p.ngl is None && p.tensor_split is None && p.main_gpu is None && p.device is None,
            p.cpu_moe is None && p.ctx is None && !p.no_mmap && p.flash_attn is None,
            p.threads is None && p.threads_batch is None && p.cache_type_k is None,
            p.cache_type_v is None && p.hf_cache_dir is None && p.host_label is None,
            p.tok_s_bits is None && p.note is None && p.updated_at == 0 && p.nodes@.len() == 0,
    {
        Profile {
            id: String::new(),
            name: String::new(),
            model: String::new(),
            ngl: None,
            tensor_split: None,
            main_gpu: None,
            device: None,
            cpu_moe: None,
            ctx: None,
            no_mmap: false,
            flash_attn: None,
            threads: None,
            threads_batch: None,
            cache_type_k: None,
            cache_type_v: None,
            hf_cache_dir: None,
            host_label: None,
            tok_s_bits: None,
            note: None,
            updated_at: 0,
            nodes: Vec::new(),
        }
    }
}

/// The saved profiles.
#[derive(Clone, PartialEq, Debug)]
pub struct ProfileStore {
    pub profiles: Vec<Profile>,
}

impl Default for ProfileStore {
    fn default() -> (s: Self)
        ensures
            s.profiles@.len() == 0,
    {
        ProfileStore { profiles: Vec::new() }
    }
}

/// The index of the first profile with the given id, or -1.
pub open spec fn index_of_id(ps: Seq<Profile>, id: Seq<char>) -> int
    decreases ps.len(),
{
    if ps.len() == 0 {
        -1
    } else {
        let k = index_of_id(ps.drop_last(), id);
        if k >= 0 {
            k
        } else if ps.last().id@ == id {
            ps.len() - 1
        } else {
            -1
        }
    }
}

/// The profile with the given id (the first one, should there be several).
pub open spec fn profile_with_id(ps: Seq<Profile>, id: Seq<char>) -> Option<Profile> {
    let k = index_of_id(ps, id);
    if k >= 0 {
        Some(ps[k])
    } else {
        None
    }
}

/// `ps` after saving `p`: it replaces the profile with its id, else it is appended.
pub open spec fn upserted(ps: Seq<Profile>, p: Profile) -> Seq<Profile> {
    let k = index_of_id(ps, p.id@);
    if k >= 0 {
        ps.update(k, p)
    } else {
        ps.push(p)
    }
}

/// `ps` without the profiles that have the given id.
pub open spec fn without_id(ps: Seq<Profile>, id: Seq<char>) -> Seq<Profile>
    decreases ps.len(),
{
    if ps.len() == 0 {
        Seq::empty()
    } else {
        without_id(ps.drop_last(), id) + (if ps.last().id@ == id {
            Seq::empty()
        } else {
            seq![ps.last()]
        })
    }
}

/// The profiles for a model (all of them when no model is given), in order.
pub open spec fn profiles_for(ps: Seq<Profile>, model: Option<Seq<char>>) -> Seq<Profile>
    decreases ps.len(),
{
    if ps.len() == 0 {
        Seq::empty()
    } else {
        profiles_for(ps.drop_last(), model) + (if model is None || ps.last().model@ == model->0 {
            seq![ps.last()]
        } else {
            Seq::empty()
        })
    }
}

/// What `index_of_id` finds.
pub proof fn lemma_index_of_id(ps: Seq<Profile>, id: Seq<char>)
    ensures
        -1 <= index_of_id(ps, id) < ps.len(),
        index_of_id(ps, id) >= 0 ==> ps[index_of_id(ps, id)].id@ == id,
        forall|j: int|
            0 <= j < ps.len() && (index_of_id(ps, id) < 0 || j < index_of_id(ps, id)) ==> (
            #[trigger] ps[j]).id@ != id,
    decreases ps.len(),
{
    if ps.len() > 0 {
        let t = ps.drop_last();
        lemma_index_of_id(t, id);
        assert forall|j: int|
            0 <= j < ps.len() && (index_of_id(ps, id) < 0 || j < index_of_id(ps, id)) implies (
            #[trigger] ps[j]).id@ != id by {
            if j < ps.len() - 1 {
                assert(t[j] == ps[j]);
            }
        }
        if index_of_id(t, id) >= 0 {
            assert(t[index_of_id(t, id)] == ps[index_of_id(t, id)]);
        }
    }
}

/// Once a prefix holds the id, longer prefixes find the same profile.
proof fn lemma_index_of_id_stable(ps: Seq<Profile>, m: int, id: Seq<char>)
    requires
        0 <= m <= ps.len(),
        index_of_id(ps.take(m), id) >= 0,
    ensures
        index_of_id(ps, id) == index_of_id(ps.take(m), id),
    decreases ps.len(),
{
    if m == ps.len() {
        assert(ps.take(m) =~= ps);
    } else {
        assert(ps.drop_last().take(m) =~= ps.take(m));
        lemma_index_of_id_stable(ps.drop_last(), m, id);
    }
}

impl ProfileStore {
    /// The index of the first profile with the given id.
    fn find(&self, id: &str) -> (r: Option<usize>)
        ensures
            r matches Some(k) ==> k as int == index_of_id(self.profiles@, id@),
            r is None ==> index_of_id(self.profiles@, id@) == -1,
    {
        let ps = &self.profiles;
        let mut i: usize = 0;
        assert(ps@.take(0) =~= Seq::<Profile>::empty());
        while i < ps.len()
            invariant
                i <= ps@.len(),
                ps@ == self.profiles@,
                index_of_id(ps@.take(i as int), id@) == -1,
            decreases ps.len() - i,
        {
            assert(ps@.take(i + 1).drop_last() =~= ps@.take(i as int));
            if crate::text::same_text(ps[i].id.as_str(), id) {
                assert(ps@.take(i + 1).last() == ps@[i as int]);
                assert(index_of_id(ps@.take(i + 1), id@) == i);
                proof {
                    lemma_index_of_id_stable(ps@, i + 1, id@);
                }
                return Some(i);
            }
            i = i + 1;
        }
        assert(ps@.take(ps@.len() as int) =~= ps@);
        None
    }

    /// The profiles for a model, or all of them.
    pub fn list(&self, model: Option<&str>) -> (r: Vec<&Profile>)
        ensures
            r@.map_values(|p: &Profile| *p) == profiles_for(
                self.profiles@,
                crate::cluster::opt_str_view(model),
            ),
    {
        let ghost m = crate::cluster::opt_str_view(model);
        let mut out: Vec<&Profile> = Vec::new();
        let mut i: usize = 0;
        assert(self.profiles@.take(0) =~= Seq::<Profile>::empty());
        while i < self.profiles.len()
            invariant
                i <= self.profiles@.len(),
                m == crate::cluster::opt_str_view(model),
                out@.map_values(|p: &Profile| *p) == profiles_for(self.profiles@.take(i as int), m),
            decreases self.profiles.len() - i,
        {
            assert(self.profiles@.take(i + 1).drop_last() =~= self.profiles@.take(i as int));
            let p = &self.profiles[i];
            let keep = match model {
                Some(name) => crate::text::same_text(p.model.as_str(), name),
                None => true,
            };
            let ghost before = out@;
            if keep {
                out.push(p);
                assert(out@.map_values(|p: &Profile| *p) =~= before.map_values(|p: &Profile| *p).push(
                    *p,
                ));
            }
            i = i + 1;
            assert(out@.map_values(|p: &Profile| *p) =~= profiles_for(self.profiles@.take(i as int), m));
        }
        assert(self.profiles@.take(self.profiles@.len() as int) =~= self.profiles@);
        out
    }

    /// The profile with the given id.
    pub fn get(&self, id: &str) -> (r: Option<&Profile>)
        ensures
            match r {
                Some(p) => profile_with_id(self.profiles@, id@) == Some(*p),
                None => profile_with_id(self.profiles@, id@) is None,
            },
    {
        proof {
            lemma_index_of_id(self.profiles@, id@);
        }
        match self.find(id) {
            Some(k) => Some(&self.profiles[k]),
            None => None,
        }
    }

    /// Saves a profile: it replaces the one with the same id, else it is appended.
    pub fn upsert(&mut self, p: Profile)
        ensures
            final(self).profiles@ == upserted(old(self).profiles@, p),
    {
        proof {
            lemma_index_of_id(self.profiles@, p.id@);
        }
        match self.find(p.id.as_str()) {
            Some(k) => {
                self.profiles.set(k, p);
            },
            None => {
                self.profiles.push(p);
            },
        }
    }

    /// Deletes every profile with the given id; true when one was there.
    pub fn remove(&mut self, id: &str) -> (changed: bool)
        ensures
            final(self).profiles@ == without_id(old(self).profiles@, id@),
            changed == (final(self).profiles@.len() != old(self).profiles@.len()),
    {
        let mut old_profiles: Vec<Profile> = Vec::new();
        std::mem::swap(&mut old_profiles, &mut self.profiles);
        let ghost ps = old_profiles@;
        let n = old_profiles.len();
        let mut kept: Vec<Profile> = Vec::new();
        assert(ps.take(0) =~= Seq::<Profile>::empty());
        for p in it: old_profiles
            invariant
                it.seq() == ps,
                kept@ == without_id(ps.take(it.index() as int), id@),
        {
            let ghost k = it.index() as int;
            assert(ps.take(k + 1).drop_last() =~= ps.take(k));
            assert(ps[k] == p);
            if !crate::text::same_text(p.id.as_str(), id) {
                kept.push(p);
            }
            assert(kept@ =~= without_id(ps.take(k + 1), id@));
        }
        assert(ps.take(ps.len() as int) =~= ps);
        let changed = kept.len() != n;
        self.profiles = kept;
        changed
    }
}

/// After saving a profile, looking up its id finds it.
pub proof fn law_upsert_then_get(ps: Seq<Profile>, p: Profile)
    ensures
        profile_with_id(upserted(ps, p), p.id@) == Some(p),
{
    lemma_index_of_id(ps, p.id@);
    let k = index_of_id(ps, p.id@);
    let qs = upserted(ps, p);
    lemma_index_of_id(qs, p.id@);
    let j = index_of_id(qs, p.id@);
    if k >= 0 {
        assert(qs[k] == p);
        if j < k {
            assert(qs[j] == ps[j]);
        }
        assert(j == k);
    } else {
        assert(qs[ps.len() as int] == p);
        if j >= 0 && j < ps.len() {
            assert(qs[j] == ps[j]);
        }
    }
}

/// Saving a profile leaves the lookup of every other id unchanged.
pub proof fn law_upsert_keeps_others(ps: Seq<Profile>, p: Profile, id: Seq<char>)
    requires
        id != p.id@,
    ensures
        profile_with_id(upserted(ps, p), id) == profile_with_id(ps, id),
{
    lemma_index_of_id(ps, p.id@);
    lemma_index_of_id(ps, id);
    let qs = upserted(ps, p);
    lemma_index_of_id(qs, id);
    let a = index_of_id(ps, id);
    let b = index_of_id(qs, id);
    if a >= 0 {
        assert(qs[a] == ps[a]);
        if b >= 0 && b < a {
            assert(qs[b] == ps[b] || qs[b] == p);
        }
    }
    if b >= 0 && b < ps.len() {
        assert(qs[b] == ps[b] || qs[b] == p);
    }
}

/// After deleting an id, no profile has it.
pub proof fn law_remove_then_get(ps: Seq<Profile>, id: Seq<char>)
    ensures
        profile_with_id(without_id(ps, id), id) is None,
{
    lemma_without_id(ps, id);
    lemma_index_of_id(without_id(ps, id), id);
}

/// Deleting keeps exactly the profiles with other ids.
proof fn lemma_without_id(ps: Seq<Profile>, id: Seq<char>)
    ensures
        forall|j: int| 0 <= j < without_id(ps, id).len() ==> (#[trigger] without_id(ps, id)[j]).id@ != id,
    decreases ps.len(),
{
    if ps.len() > 0 {
        lemma_without_id(ps.drop_last(), id);
        let a = without_id(ps.drop_last(), id);
        assert forall|j: int| 0 <= j < without_id(ps, id).len() implies (#[trigger] without_id(
            ps,
            id,
        )[j]).id@ != id by {
            if j < a.len() {
                assert(without_id(ps, id)[j] == a[j]);
            }
        }
    }
}

} // verus!

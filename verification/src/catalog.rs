//! Approximate metadata for a few well-known models.
use vstd::prelude::*;
use crate::planner::ModelMeta;
use crate::text::owned;

verus! {

/// A model offered in the cockpit.
#[derive(Clone, Debug)]
pub struct CatalogEntry {
    pub label: String,
    pub hf: String,
    pub meta: ModelMeta,
}

/// One catalog entry's contents.
pub open spec fn entry_is(
    e: CatalogEntry,
    label: Seq<char>,
    hf: Seq<char>,
    total_mib: u64,
    n_layers: u32,
    is_moe: bool,
) -> bool {
    e.label@ == label && e.hf@ == hf && e.meta == (ModelMeta { total_mib, n_layers, is_moe })
}

fn entry(label: &str, hf: &str, total_mib: u64, n_layers: u32, is_moe: bool) -> (e: CatalogEntry)
    ensures
        entry_is(e, label@, hf@, total_mib, n_layers, is_moe),
{
    CatalogEntry { label: owned(label), hf: owned(hf), meta: ModelMeta { total_mib, n_layers, is_moe } }
}

/// Approximate Q4_K_M metadata for a few known models. Sizes in MiB.
pub fn model_catalog() -> (c: Vec<CatalogEntry>)
    ensures
        c@.len() == 3,
        entry_is(c@[0], "Qwen3.6-27B (dense) Q4_K_M"@, "unsloth/Qwen3.6-27B-GGUF:Q4_K_M"@, 17000, 64, false),
        entry_is(c@[1], "Qwen3.6-35B-A3B (MoE) Q4_K_M"@, "unsloth/Qwen3.6-35B-A3B-GGUF:Q4_K_M"@, 21000, 48, true),
        entry_is(c@[2], "Llama-3.3-70B Q4_K_M"@, "unsloth/Llama-3.3-70B-Instruct-GGUF:Q4_K_M"@, 42000, 80, false),
{
    let mut c: Vec<CatalogEntry> = Vec::new();
    c.push(entry("Qwen3.6-27B (dense) Q4_K_M", "unsloth/Qwen3.6-27B-GGUF:Q4_K_M", 17_000, 64, false));
    c.push(entry("Qwen3.6-35B-A3B (MoE) Q4_K_M", "unsloth/Qwen3.6-35B-A3B-GGUF:Q4_K_M", 21_000, 48, true));
    c.push(entry("Llama-3.3-70B Q4_K_M", "unsloth/Llama-3.3-70B-Instruct-GGUF:Q4_K_M", 42_000, 80, false));
    c
}

} // verus!

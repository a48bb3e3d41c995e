//! Names of the files in the pixel cache: one per source image and output size.
use crate::monitors::{groups_view, names_of, partition, partition_by_size, MonitorMeta};
use crate::protocol::{monitor_names, WpdmMonitor};
use crate::text::{
    collect_prefix, decimal, hex, lemma_hex_len, lemma_hex_prefix, push_decimal, push_hex,
};
use sha2::{Digest, Sha256};
use vstd::prelude::*;

verus! {

/// The SHA-256 digest of a string's UTF-8 bytes.
pub uninterp spec fn sha256_of(s: Seq<char>) -> Seq<u8>;

/// Relies on sha2's `Sha256::digest`: the 32-byte SHA-256 digest of the
/// string's UTF-8 bytes.
#[verifier::external_body]
fn sha256_digest(s: &str) -> (r: Vec<u8>)
    ensures
        r@ == sha256_of(s@),
        r@.len() == 32,
{
    Sha256::digest(s.as_bytes()).to_vec()
}

/// Number of hex digits of the digest that a cache file name keeps.
pub const HEX_CHARS: usize = 20;

/// The first twenty hex digits of `digest` (all of them if it is shorter).
pub open spec fn digest_prefix(digest: Seq<u8>) -> Seq<char> {
    if HEX_CHARS < hex(digest).len() {
        hex(digest).take(HEX_CHARS as int)
    } else {
        hex(digest)
    }
}

/// `"{w}x{h}_"`, the first twenty hex digits of the digest, then `.bgra`.
pub open spec fn cache_key(digest: Seq<u8>, width: i32, height: i32) -> Seq<char> {
    decimal(width as int) + seq!['x'] + decimal(height as int) + seq!['_'] + digest_prefix(digest)
        + ".bgra"@
}

/// The cache file name for a source whose digest is `digest`, shown on a
/// `width` by `height` output.
pub fn cache_name_from_digest(digest: &[u8], width: i32, height: i32) -> (r: String)
    ensures
        r@ == cache_key(digest@, width, height),
{
    let mut chars: Vec<char> = Vec::new();
    push_decimal(&mut chars, width);
    chars.push('x');
    push_decimal(&mut chars, height);
    chars.push('_');
    let count = if digest.len() < HEX_CHARS / 2 {
        digest.len()
    } else {
        HEX_CHARS / 2
    };
    push_hex(&mut chars, digest, count);
    proof {
        lemma_hex_len(digest@);
        lemma_hex_prefix(digest@, count as int);
        if count == digest@.len() {
            assert(digest@.take(count as int) =~= digest@);
            assert(hex(digest@).take(2 * count) =~= hex(digest@));
        }
        assert(hex(digest@.take(count as int)) == digest_prefix(digest@));
    }
    let mut r = collect_prefix(&chars, chars.len());
    r.append(".bgra");
    assert(r@ =~= cache_key(digest@, width, height));
    r
}

/// The cache file name for the source at canonical path `path`, shown on a
/// `width` by `height` output. Equal arguments give equal names.
pub fn get_cache_name(path: &str, width: i32, height: i32) -> (r: String)
    ensures
        r@ == cache_key(sha256_of(path@), width, height),
        sha256_of(path@).len() == 32,
{
    let digest = sha256_digest(path);
    cache_name_from_digest(digest.as_slice(), width, height)
}

/// Equal canonical paths and sizes give equal cache file names.
pub proof fn lemma_cache_key_deterministic(p1: Seq<char>, p2: Seq<char>, width: i32, height: i32)
    requires
        p1 == p2,
    ensures
        cache_key(sha256_of(p1), width, height) == cache_key(sha256_of(p2), width, height),
{
}

/// What the controller prepares for one output size: the outputs of that
/// size and the name of their cache file.
pub struct CachePlan {
    pub width: i32,
    pub height: i32,
    pub monitors: Vec<String>,
    pub cache_name: String,
}

/// The daemon's outputs in the form the size grouping reads.
pub fn metas_of(monitors: &Vec<WpdmMonitor>) -> (r: Vec<MonitorMeta>)
    ensures
        r@ == metas_seq(monitors@),
{
    let mut r: Vec<MonitorMeta> = Vec::new();
    let mut k: usize = 0;
    while k < monitors.len()
        invariant
            k <= monitors.len(),
            r@ =~= metas_seq(monitors@).take(k as int),
        decreases monitors.len() - k,
    {
        let m = &monitors[k];
        r.push(MonitorMeta { name: m.name.clone(), width: m.width, height: m.height });
        k = k + 1;
    }
    r
}

/// One plan per distinct output size among `monitors`, in the order in which
/// sizes first appear, each naming the cache file of `image_path` at that size.
pub fn plan_cache_files(image_path: &str, monitors: &Vec<WpdmMonitor>) -> (r: Vec<CachePlan>)
    ensures
        r@.len() == partition(names_of(monitors@.map_values(|m: WpdmMonitor| m.name)), metas_seq(monitors@)).len(),
        forall|k: int|
            0 <= k < r@.len() ==> {
                let g = partition(names_of(monitors@.map_values(|m: WpdmMonitor| m.name)), metas_seq(monitors@))[k];
                &&& (#[trigger] r@[k]).width == g.0
                &&& r@[k].height == g.1
                &&& names_of(r@[k].monitors@) == g.2
                &&& r@[k].cache_name@ == cache_key(sha256_of(image_path@), g.0, g.1)
            },
{
    let metas = metas_of(monitors);
    let names = monitor_names(&metas);
    proof {
        assert(names_of(names@) =~= names_of(monitors@.map_values(|m: WpdmMonitor| m.name)));
    }
    let groups = partition_by_size(&names, &metas);
    let ghost gv = groups_view(groups@);
    let digest = sha256_digest(image_path);
    let mut plans: Vec<CachePlan> = Vec::new();
    let mut rest = groups;
    let mut k: usize = 0;
    let n = rest.len();
    let ghost all = rest@;
    while k < n
        invariant
            n == all.len(),
            gv == groups_view(all),
            k <= n,
            rest@ == all.subrange(k as int, n as int),
            plans@.len() == k,
            digest@ == sha256_of(image_path@),
            forall|j: int|
                0 <= j < k ==> {
                    &&& (#[trigger] plans@[j]).width == gv[j].0
                    &&& plans@[j].height == gv[j].1
                    &&& names_of(plans@[j].monitors@) == gv[j].2
                    &&& plans@[j].cache_name@ == cache_key(sha256_of(image_path@), gv[j].0, gv[j].1)
                },
        decreases n - k,
    {
        let g = rest.remove(0);
        let cache_name = cache_name_from_digest(digest.as_slice(), g.width, g.height);
        plans.push(CachePlan { width: g.width, height: g.height, monitors: g.monitors, cache_name });
        assert(rest@ =~= all.subrange(k + 1, n as int));
        k = k + 1;
    }
    plans
}

/// The outputs as the daemon would describe them.
pub open spec fn metas_seq(monitors: Seq<WpdmMonitor>) -> Seq<MonitorMeta> {
    monitors.map_values(|m: WpdmMonitor| MonitorMeta { name: m.name, width: m.width, height: m.height })
}

} // verus!

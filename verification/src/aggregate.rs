//! Aggregation of CIDR blocks: the input blocks are normalized and collected
//! into a set, then two sibling blocks of equal prefix length are repeatedly
//! replaced by their parent block, always taking the lowest mergeable block
//! first, until no sibling pair is left.
use vstd::prelude::*;
use vstd::relations::{is_minimal, total_ordering};
use crate::net::{
    Cidr, block_size, block_spec, format_cidr_spec, in_block, lemma_cidr_round_trip, normalize_cidr, normalize_spec, normalized,
    parse_cidr, parse_cidr_spec, lemma_mask_shape, lemma_mask_idempotent,
};
use crate::text::{chars_of_string, string_views};
use std::collections::BTreeSet;
use vstd::laws_cmp::obeys_cmp;
use vstd::std_specs::btree::{increasing_seq, spec_btree_keys_iter};
use vstd::std_specs::cmp::OrdSpec;
use vstd::std_specs::iter::IteratorSpec;

verus! {

// ---------------------------------------------------------------------------
// Specifications
// ---------------------------------------------------------------------------
/// The order of `Cidr` values: by network address, then by prefix length.
pub open spec fn cidr_le(a: Cidr, b: Cidr) -> bool {
    a.network < b.network || (a.network == b.network && a.prefix <= b.prefix)
}

pub open spec fn cidr_lt(a: Cidr, b: Cidr) -> bool {
    a.network < b.network || (a.network == b.network && a.prefix < b.prefix)
}

pub open spec fn sorted_strict(s: Seq<Cidr>) -> bool {
    forall|i: int, j: int| 0 <= i < j < s.len() ==> cidr_lt(#[trigger] s[i], #[trigger] s[j])
}

/// The other half of the block's parent.
pub open spec fn sibling(c: Cidr) -> Cidr {
    Cidr { network: c.network ^ block_spec(c.prefix), prefix: c.prefix }
}

/// The block one bit shorter that holds the block.
pub open spec fn parent(c: Cidr) -> Cidr {
    normalize_spec(Cidr { network: c.network, prefix: (c.prefix - 1) as u8 })
}

pub open spec fn mergeable(s: Set<Cidr>, c: Cidr) -> bool {
    s.contains(c) && c.prefix > 0 && s.contains(sibling(c))
}

pub open spec fn mergeable_set(s: Set<Cidr>) -> Set<Cidr> {
    s.filter(|c: Cidr| mergeable(s, c))
}

pub open spec fn cidr_order() -> spec_fn(Cidr, Cidr) -> bool {
    |a: Cidr, b: Cidr| cidr_le(a, b)
}

/// The lowest block whose sibling is also in the set.
pub open spec fn first_mergeable(s: Set<Cidr>) -> Cidr {
    mergeable_set(s).find_unique_minimal(cidr_order())
}

/// One aggregation step: the lowest mergeable block and its sibling are
/// replaced by their parent.
pub open spec fn merge_step(s: Set<Cidr>) -> Set<Cidr> {
    let c = first_mergeable(s);
    s.remove(c).remove(sibling(c)).insert(parent(c))
}

pub open spec fn well_formed_set(s: Set<Cidr>) -> bool {
    s.finite() && forall|c: Cidr| s.contains(c) ==> normalized(c)
}

/// The result of aggregating a set of normalized blocks.
pub open spec fn aggregate_spec(s: Set<Cidr>) -> Set<Cidr>
    decreases s.len(),
    when well_formed_set(s)
{
    if exists|c: Cidr| mergeable(s, c) {
        proof {
            lemma_merge_step(s);
        }
        aggregate_spec(merge_step(s))
    } else {
        s
    }
}

/// The normalized blocks parsed from the listed strings (unparsable entries
/// are skipped).
pub open spec fn cidr_set(subnets: Seq<Seq<char>>) -> Set<Cidr>
    decreases subnets.len(),
{
    if subnets.len() == 0 {
        Set::empty()
    } else {
        let rest = cidr_set(subnets.drop_last());
        match parse_cidr_spec(subnets.last()) {
            Some(c) => rest.insert(normalize_spec(c)),
            None => rest,
        }
    }
}

/// Some block of the set holds the address.
pub open spec fn covers(s: Set<Cidr>, ip: u32) -> bool {
    exists|c: Cidr| s.contains(c) && #[trigger] in_block(c, ip)
}

// ---------------------------------------------------------------------------
// Lemmas
// ---------------------------------------------------------------------------
/// The bit facts behind a merge: masking with the parent mask.
proof fn lemma_merge_bits(net: u32, ip: u32, s: u32)
    by (bit_vector)
    requires
        s <= 31,
        net & (0xFFFF_FFFFu32 << s) == net,
    ensures
        ((ip & (0xFFFF_FFFFu32 << (s + 1u32))) == (net & (0xFFFF_FFFFu32 << (s + 1u32)))) == ((
        ip & (0xFFFF_FFFFu32 << s)) == net || (ip & (0xFFFF_FFFFu32 << s)) == (net ^ (1u32
            << s))),
        ((net ^ (1u32 << s)) & (0xFFFF_FFFFu32 << s)) == (net ^ (1u32 << s)),
        (net ^ (1u32 << s)) != net,
        ((net ^ (1u32 << s)) & (0xFFFF_FFFFu32 << (s + 1u32))) == (net & (0xFFFF_FFFFu32 << (s
            + 1u32))),
        (net ^ (1u32 << s)) ^ (1u32 << s) == net,
{
}

/// Facts about the sibling and parent of a normalized block: the parent
/// holds exactly the addresses of the block and of its sibling.
pub proof fn lemma_sibling_parent(c: Cidr)
    requires
        normalized(c),
        c.prefix > 0,
    ensures
        normalized(sibling(c)),
        sibling(c) != c,
        sibling(sibling(c)) == c,
        parent(c) == parent(sibling(c)),
        normalized(parent(c)),
        forall|ip: u32|
            #[trigger] in_block(parent(c), ip) == (in_block(c, ip) || in_block(sibling(c), ip)),
{
    let p = c.prefix;
    lemma_mask_shape(p);
    lemma_mask_shape((p - 1) as u8);
    lemma_mask_idempotent(c.network, (p - 1) as u8);
    let sh = (32 - p) as u32;
    assert((32 - (p - 1) as u8) as u32 == sh + 1);
    assert forall|ip: u32| #[trigger] in_block(parent(c), ip) == (in_block(c, ip) || in_block(
        sibling(c),
        ip,
    )) by {
        lemma_merge_bits(c.network, ip, sh);
    }
    lemma_merge_bits(c.network, 0, sh);
}

/// Blocks are totally ordered by network, then prefix length.
pub proof fn lemma_cidr_le_total()
    ensures
        total_ordering(cidr_order()),
{
}

/// The chosen block of a merge step is mergeable and lowest, and the step
/// keeps the set finite and normalized while making it smaller.
pub proof fn lemma_merge_step(s: Set<Cidr>)
    requires
        well_formed_set(s),
        exists|c: Cidr| mergeable(s, c),
    ensures
        mergeable_set(s).finite(),
        mergeable_set(s).len() > 0,
        mergeable(s, first_mergeable(s)),
        forall|d: Cidr| mergeable(s, d) ==> cidr_le(first_mergeable(s), d),
        well_formed_set(merge_step(s)),
        merge_step(s).len() < s.len(),
{
    let w = choose|c: Cidr| mergeable(s, c);
    let ms = mergeable_set(s);
    assert(ms.contains(w));
    assert(ms.finite());
    vstd::set_lib::lemma_len_subset(ms, s);
    assert(ms.len() > 0);
    lemma_cidr_le_total();
    ms.find_unique_minimal_ensures(cidr_order());
    let c = first_mergeable(s);
    assert(ms.contains(c));
    let r = cidr_order();
    assert forall|d: Cidr| mergeable(s, d) implies cidr_le(c, d) by {
        assert(ms.contains(d));
        if !cidr_le(c, d) {
            assert(r(d, c));
            assert(r(c, d));
        }
    }
    lemma_sibling_parent(c);
    let s1 = s.remove(c);
    let s2 = s1.remove(sibling(c));
    assert(s1.len() == s.len() - 1);
    assert(s1.contains(sibling(c)));
    assert(s2.len() == s.len() - 2);
}

/// One merge step keeps the covered addresses.
pub proof fn lemma_merge_step_covers(s: Set<Cidr>, ip: u32)
    requires
        well_formed_set(s),
        exists|c: Cidr| mergeable(s, c),
    ensures
        covers(merge_step(s), ip) == covers(s, ip),
{
    lemma_merge_step(s);
    let c = first_mergeable(s);
    lemma_sibling_parent(c);
    let t = merge_step(s);
    if covers(t, ip) {
        let d = choose|d: Cidr| t.contains(d) && #[trigger] in_block(d, ip);
        if d == parent(c) {
            if in_block(c, ip) {
                assert(s.contains(c));
            } else {
                assert(s.contains(sibling(c)) && in_block(sibling(c), ip));
            }
        } else {
            assert(s.contains(d));
        }
    }
    if covers(s, ip) {
        let d = choose|d: Cidr| s.contains(d) && #[trigger] in_block(d, ip);
        if d == c || d == sibling(c) {
            assert(t.contains(parent(c)) && in_block(parent(c), ip));
        } else {
            assert(t.contains(d));
        }
    }
}

/// Aggregation keeps exactly the covered addresses, yields normalized blocks
/// and leaves no two siblings together.
pub proof fn lemma_aggregate(s: Set<Cidr>)
    requires
        well_formed_set(s),
    ensures
        well_formed_set(aggregate_spec(s)),
        forall|c: Cidr| !mergeable(aggregate_spec(s), c),
        forall|ip: u32| #[trigger] covers(aggregate_spec(s), ip) == covers(s, ip),
    decreases s.len(),
{
    if exists|c: Cidr| mergeable(s, c) {
        lemma_merge_step(s);
        lemma_aggregate(merge_step(s));
        assert forall|ip: u32| #[trigger] covers(aggregate_spec(s), ip) == covers(s, ip) by {
            lemma_merge_step_covers(s, ip);
        }
    }
}

/// The blocks parsed from a list form a finite set of normalized blocks.
pub proof fn lemma_cidr_set_wf(subnets: Seq<Seq<char>>)
    ensures
        well_formed_set(cidr_set(subnets)),
    decreases subnets.len(),
{
    if subnets.len() > 0 {
        lemma_cidr_set_wf(subnets.drop_last());
        match parse_cidr_spec(subnets.last()) {
            Some(c) => {
                lemma_mask_idempotent(c.network, c.prefix);
            },
            None => {},
        }
    }
}

/// Merging the listed networks changes neither which addresses they cover
/// nor leaves a pair of siblings unmerged.
pub proof fn lemma_aggregation_keeps_addresses(subnets: Seq<Seq<char>>)
    ensures
        forall|ip: u32| #[trigger]
            covers(aggregate_spec(cidr_set(subnets)), ip) == covers(cidr_set(subnets), ip),
        forall|c: Cidr| !mergeable(aggregate_spec(cidr_set(subnets)), c),
{
    lemma_cidr_set_wf(subnets);
    lemma_aggregate(cidr_set(subnets));
}

/// The set of a sequence with one more element.
proof fn lemma_to_set_push(d: Seq<Cidr>, c: Cidr)
    ensures
        d.push(c).to_set() == d.to_set().insert(c),
{
    let r = d.push(c);
    assert forall|x: Cidr| r.to_set().contains(x) == d.to_set().insert(c).contains(x) by {
        if r.to_set().contains(x) {
            let k = choose|k: int| 0 <= k < r.len() && r[k] == x;
            if k < d.len() {
                assert(d[k] == x);
                assert(d.contains(x));
            }
        }
        if d.to_set().contains(x) {
            let k = choose|k: int| 0 <= k < d.len() && d[k] == x;
            assert(r[k] == x);
            assert(r.contains(x));
        }
        if x == c {
            assert(r[d.len() as int] == x);
            assert(r.contains(x));
        }
    }
    assert(r.to_set() =~= d.to_set().insert(c));
}

/// The blocks parsed from the written-out blocks of a list of normalized
/// blocks are the blocks of the list.
proof fn lemma_cidr_set_of_written(r: Seq<Cidr>)
    requires
        forall|i: int| 0 <= i < r.len() ==> normalized(#[trigger] r[i]),
    ensures
        cidr_set(r.map_values(|c: Cidr| format_cidr_spec(c))) == r.to_set(),
    decreases r.len(),
{
    let w = r.map_values(|c: Cidr| format_cidr_spec(c));
    if r.len() == 0 {
        assert(r.to_set() =~= Set::<Cidr>::empty());
    } else {
        let d = r.drop_last();
        assert forall|i: int| 0 <= i < d.len() implies normalized(#[trigger] d[i]) by {
            assert(d[i] == r[i]);
        }
        lemma_cidr_set_of_written(d);
        assert(w.drop_last() =~= d.map_values(|c: Cidr| format_cidr_spec(c)));
        let c = r.last();
        assert(normalized(r[r.len() - 1]));
        assert(w.last() == format_cidr_spec(c));
        lemma_cidr_round_trip(c);
        assert(normalize_spec(c) == c);
        lemma_to_set_push(d, c);
        assert(r == d.push(c));
    }
}

/// Two strictly sorted sequences with the same blocks are equal.
pub proof fn lemma_sorted_unique(a: Seq<Cidr>, b: Seq<Cidr>)
    requires
        sorted_strict(a),
        sorted_strict(b),
        a.to_set() == b.to_set(),
    ensures
        a == b,
    decreases a.len(),
{
    if a.len() == 0 {
        if b.len() > 0 {
            assert(b.to_set().contains(b[0]));
        }
        assert(b.len() == 0);
        assert(a =~= b);
    } else {
        assert(a.to_set().contains(a[0]));
        assert(b.len() > 0);
        assert(b.to_set().contains(b[0]));
        let j = choose|j: int| 0 <= j < b.len() && b[j] == a[0];
        let i = choose|i: int| 0 <= i < a.len() && a[i] == b[0];
        if a[0] != b[0] {
            assert(j > 0 && i > 0);
            assert(cidr_lt(b[0], b[j]));
            assert(cidr_lt(a[0], a[i]));
        }
        lemma_remove_to_set(a, 0);
        lemma_remove_to_set(b, 0);
        assert(a.remove(0) =~= a.drop_first());
        assert(b.remove(0) =~= b.drop_first());
        lemma_sorted_unique(a.drop_first(), b.drop_first());
        assert(a =~= b) by {
            assert forall|k: int| 0 <= k < a.len() implies a[k] == b[k] by {
                if k > 0 {
                    assert(a[k] == a.drop_first()[k - 1]);
                    assert(b[k] == b.drop_first()[k - 1]);
                }
            }
        }
    }
}

/// Merging again the written-out result of a merge gives the same result:
/// `r` is a merge result of `subnets`, `r2` one of the lines `r` is written
/// as.
pub proof fn lemma_aggregate_again(subnets: Seq<Seq<char>>, r: Seq<Cidr>, r2: Seq<Cidr>)
    requires
        sorted_strict(r),
        r.to_set() == aggregate_spec(cidr_set(subnets)),
        sorted_strict(r2),
        r2.to_set() == aggregate_spec(cidr_set(r.map_values(|c: Cidr| format_cidr_spec(c)))),
    ensures
        r2 == r,
{
    lemma_cidr_set_wf(subnets);
    lemma_aggregate(cidr_set(subnets));
    let s = aggregate_spec(cidr_set(subnets));
    assert forall|i: int| 0 <= i < r.len() implies normalized(#[trigger] r[i]) by {
        assert(r.to_set().contains(r[i]));
    }
    lemma_cidr_set_of_written(r);
    assert(!(exists|c: Cidr| mergeable(s, c)));
    assert(aggregate_spec(s) == s);
    lemma_sorted_unique(r2, r);
}

/// A strictly sorted sequence holds no block twice.
proof fn lemma_sorted_no_dup(s: Seq<Cidr>, i: int, j: int)
    requires
        sorted_strict(s),
        0 <= i < s.len(),
        0 <= j < s.len(),
        i != j,
    ensures
        s[i] != s[j],
{
    if i < j {
        assert(cidr_lt(s[i], s[j]));
    } else {
        assert(cidr_lt(s[j], s[i]));
    }
}

/// Removing an element of a duplicate-free sequence removes it from its set.
proof fn lemma_remove_to_set(s: Seq<Cidr>, i: int)
    requires
        sorted_strict(s),
        0 <= i < s.len(),
    ensures
        s.remove(i).to_set() == s.to_set().remove(s[i]),
        sorted_strict(s.remove(i)),
{
    let r = s.remove(i);
    assert(r.len() == s.len() - 1);
    assert forall|k: int| 0 <= k < r.len() implies #[trigger] r[k] == (if k < i {
        s[k]
    } else {
        s[k + 1]
    }) by {}
    assert forall|x: Cidr| #[trigger] r.to_set().contains(x) == s.to_set().remove(s[i]).contains(
        x,
    ) by {
        if r.to_set().contains(x) {
            let k = choose|k: int| 0 <= k < r.len() && r[k] == x;
            if k < i {
                lemma_sorted_no_dup(s, k, i);
                assert(s.contains(x));
            } else {
                lemma_sorted_no_dup(s, k + 1, i);
                assert(s[k + 1] == x);
                assert(s.contains(x));
            }
        }
        if s.to_set().remove(s[i]).contains(x) {
            let k = choose|k: int| 0 <= k < s.len() && s[k] == x;
            assert(k != i);
            if k < i {
                assert(r[k] == x);
            } else {
                assert(r[k - 1] == x);
            }
            assert(r.contains(x));
        }
    }
    assert(r.to_set() =~= s.to_set().remove(s[i]));
    assert forall|a: int, b: int| 0 <= a < b < r.len() implies cidr_lt(
        #[trigger] r[a],
        #[trigger] r[b],
    ) by {
        let a2 = if a < i {
            a
        } else {
            a + 1
        };
        let b2 = if b < i {
            b
        } else {
            b + 1
        };
        assert(r[a] == s[a2] && r[b] == s[b2]);
        assert(cidr_lt(s[a2], s[b2]));
    }
}

// ---------------------------------------------------------------------------
// Executable functions
// ---------------------------------------------------------------------------
/// The key a block is kept under in the set: network, then prefix length.
pub open spec fn block_key(c: Cidr) -> (u32, u8) {
    (c.network, c.prefix)
}

pub open spec fn key_block(k: (u32, u8)) -> Cidr {
    Cidr { network: k.0, prefix: k.1 }
}

/// Keys (network, prefix length) follow the order std documents for tuples.
proof fn lemma_keys_ordered()
    ensures
        obeys_cmp::<(u32, u8)>(),
{
    broadcast use vstd::laws_cmp::group_laws_cmp;

    assert(obeys_cmp::<u32>());
    assert(obeys_cmp::<u8>());
}

/// The blocks of a set, in increasing order (network, then prefix length).
fn sorted_blocks(set: &BTreeSet<(u32, u8)>) -> (r: Vec<Cidr>)
    ensures
        sorted_strict(r@),
        forall|c: Cidr| r@.contains(c) <==> set@.contains(block_key(c)),
{
    broadcast use vstd::std_specs::btree::group_btree_axioms, vstd::laws_cmp::group_laws_cmp;

    let mut r: Vec<Cidr> = Vec::new();
    let ghost keys = spec_btree_keys_iter(set).remaining();
    assert(keys.unref().to_set() == set@);
    for k in it: set.iter()
        invariant
            it.seq() == keys,
            r@ == it.seq().take(it.index()).map_values(|x: &(u32, u8)| key_block(*x)),
    {
        r.push(Cidr { network: k.0, prefix: k.1 });
        assert(it.seq().take(it.index() + 1) =~= it.seq().take(it.index()).push(k));
    }
    assert(r@ =~= keys.map_values(|x: &(u32, u8)| key_block(*x)));
    assert(obeys_cmp::<u32>());
    assert(obeys_cmp::<u8>());
    assert(obeys_cmp::<(u32, u8)>());
    assert(obeys_cmp::<&(u32, u8)>());
    assert(increasing_seq(keys));
    assert forall|i: int, j: int| 0 <= i < j < r@.len() implies cidr_lt(
        #[trigger] r@[i],
        #[trigger] r@[j],
    ) by {
        let a: &(u32, u8) = keys[i];
        let b: &(u32, u8) = keys[j];
        assert(OrdSpec::cmp_spec(&a, &b) is Less);
        assert(OrdSpec::cmp_spec(a, b) is Less);
        assert(r@[i] == key_block(*keys[i]));
        assert(r@[j] == key_block(*keys[j]));
    }
    assert forall|c: Cidr| r@.contains(c) <==> set@.contains(block_key(c)) by {
        if r@.contains(c) {
            let i = choose|i: int| 0 <= i < r@.len() && r@[i] == c;
            assert(keys.unref()[i] == block_key(c));
            assert(keys.unref().to_set().contains(block_key(c)));
        }
        if set@.contains(block_key(c)) {
            assert(keys.unref().to_set().contains(block_key(c)));
            let i = choose|i: int| 0 <= i < keys.unref().len() && keys.unref()[i] == block_key(c);
            assert(r@[i] == c);
        }
    }
    r
}

/// The set of blocks kept under the keys of a set.
pub open spec fn holds_blocks(keys: Set<(u32, u8)>, blocks: Set<Cidr>) -> bool {
    forall|c: Cidr| #[trigger] keys.contains(block_key(c)) <==> blocks.contains(c)
}

/// Normalizes the listed CIDR blocks (skipping what does not parse),
/// removes duplicates and merges sibling blocks into their parents until no
/// sibling pair is left.  The result is sorted by network, then prefix.
pub fn aggregate_subnets(subnets: &[String]) -> (r: Vec<Cidr>)
    ensures
        sorted_strict(r@),
        r@.to_set() == aggregate_spec(cidr_set(string_views(subnets@))),
{
    broadcast use vstd::std_specs::btree::group_btree_axioms;

    proof {
        lemma_keys_ordered();
    }
    let ghost input = string_views(subnets@);
    let mut set: BTreeSet<(u32, u8)> = BTreeSet::new();
    let mut i: usize = 0;
    while i < subnets.len()
        invariant
            i <= subnets.len(),
            input == string_views(subnets@),
            holds_blocks(set@, cidr_set(input.take(i as int))),
        decreases subnets.len() - i,
    {
        let chars = chars_of_string(&subnets[i]);
        assert(input.take(i + 1).drop_last() == input.take(i as int));
        assert(input.take(i + 1).last() == chars@);
        match parse_cidr(&chars) {
            Some(c) => {
                let n = normalize_cidr(c);
                set.insert((n.network, n.prefix));
            },
            None => {},
        }
        i = i + 1;
    }
    assert(input.take(subnets.len() as int) == input);
    proof {
        lemma_cidr_set_wf(input);
    }
    let ghost start = cidr_set(input);
    let ghost mut abs = start;
    loop
        invariant
            holds_blocks(set@, abs),
            well_formed_set(abs),
            well_formed_set(start),
            start == cidr_set(string_views(subnets@)),
            aggregate_spec(abs) == aggregate_spec(start),
        decreases abs.len(),
    {
        let v = sorted_blocks(&set);
        assert(v@.to_set() =~= abs);
        let ghost s = abs;
        let mut i: usize = 0;
        let mut found: Option<usize> = None;
        while i < v.len()
            invariant
                sorted_strict(v@),
                well_formed_set(s),
                holds_blocks(set@, s),
                s == v@.to_set(),
                i <= v.len(),
                forall|j: int| 0 <= j < i ==> !mergeable(s, #[trigger] v@[j]),
                match found {
                    Some(a) => a < v.len() && mergeable(s, v@[a as int]) && forall|j: int|
                        0 <= j < a ==> !mergeable(s, #[trigger] v@[j]),
                    None => true,
                },
            ensures
                found is None ==> i == v.len(),
            decreases v.len() - i,
        {
            let c = v[i];
            assert(s.contains(c));
            assert(normalized(c));
            if c.prefix != 0 {
                let sib = Cidr { network: c.network ^ block_size(c.prefix), prefix: c.prefix };
                assert(sib == sibling(c));
                let present = set.contains(&(sib.network, sib.prefix));
                assert(present == set@.contains(block_key(sib)));
                if present {
                    found = Some(i);
                    break ;
                }
            }
            i = i + 1;
        }
        match found {
            None => {
                assert forall|c: Cidr| !mergeable(s, c) by {
                    if mergeable(s, c) {
                        let j = choose|j: int| 0 <= j < v@.len() && v@[j] == c;
                        assert(!mergeable(s, v@[j]));
                    }
                }
                assert(aggregate_spec(s) == s);
                return v;
            },
            Some(a) => {
                let c = v[a];
                proof {
                    lemma_merge_step(s);
                    lemma_sibling_parent(c);
                    assert forall|d: Cidr| mergeable_set(s).contains(d) implies cidr_le(c, d) by {
                        let j = choose|j: int| 0 <= j < v@.len() && v@[j] == d;
                        assert(!(j < a as int) || !mergeable(s, v@[j]));
                        if j > a as int {
                            assert(cidr_lt(v@[a as int], v@[j]));
                        }
                    }
                    lemma_cidr_le_total();
                    mergeable_set(s).find_unique_minimal_ensures(cidr_order());
                    assert(is_minimal(cidr_order(), c, mergeable_set(s)));
                    assert(first_mergeable(s) == c);
                }
                let sib = Cidr { network: c.network ^ block_size(c.prefix), prefix: c.prefix };
                let p = normalize_cidr(Cidr { network: c.network, prefix: c.prefix - 1 });
                assert(p == parent(c));
                let ghost before = set@;
                set.remove(&(c.network, c.prefix));
                set.remove(&(sib.network, sib.prefix));
                set.insert((p.network, p.prefix));
                assert(set@ == before.remove(block_key(c)).remove(block_key(sib)).insert(
                    block_key(p),
                ));
                proof {
                    abs = merge_step(s);
                    assert forall|d: Cidr| #[trigger] set@.contains(block_key(d)) <==> abs.contains(
                        d,
                    ) by {
                        assert(before.contains(block_key(d)) <==> s.contains(d));
                    }
                }
            },
        }
    }
}

} // verus!

//! Fact ID generation via label hashing.
use vstd::prelude::*;
use crate::text::{chars_of_string, contains_seq, decimal, same, string_of, vv};

verus! {

/// FNV-1a 128-bit offset basis.
pub open spec fn fnv_offset() -> u128 { 0x6c62272e07bb0142_62b821756295c58d }

/// FNV-1a 128-bit prime.
pub open spec fn fnv_prime() -> u128 { 0x0000000001000000_000000000000013b }

/// The 128-bit FNV-1a hash of a byte sequence.
pub open spec fn fnv1a(bytes: Seq<u8>) -> u128
    decreases bytes.len(),
{
    if bytes.len() == 0 {
        fnv_offset()
    } else {
        (fnv1a(bytes.drop_last()) ^ (bytes.last() as u128)).wrapping_mul(fnv_prime())
    }
}

/// 128-bit FNV-1a hash of the UTF-8 bytes of a label.
pub fn full_hash(s: &str) -> (h: u128)
    ensures
        h == fnv1a(vstd::utf8::encode_utf8(s@)),
{
    let bytes = s.as_bytes();
    let mut hash: u128 = 0x6c62272e07bb0142_62b821756295c58d;
    let mut i: usize = 0;
    let n = bytes.len();
    while i < n
        invariant
            n == bytes@.len(),
            bytes@ == vstd::utf8::encode_utf8(s@),
            i <= n,
            hash == fnv1a(bytes@.take(i as int)),
        decreases n - i,
    {
        proof {
            assert(bytes@.take(i + 1).drop_last() =~= bytes@.take(i as int));
        }
        hash ^= bytes[i] as u128;
        hash = hash.wrapping_mul(0x0000000001000000_000000000000013b);
        i += 1;
    }
    assert(bytes@.take(n as int) =~= bytes@);
    hash
}

/// The base-36 digit character for `d < 36`.
pub open spec fn base36_char(d: nat) -> char {
    if d < 10 { ((d + 48) as u8) as char } else { ((d - 10 + 97) as u8) as char }
}

/// The lowest `len` base-36 digits of `v`, most significant first.
pub open spec fn base36(v: nat, len: nat) -> Seq<char>
    decreases len,
{
    if len == 0 { seq![] } else { base36(v / 36, (len - 1) as nat).push(base36_char(v % 36)) }
}

/// A digit of base 36 as written: `0`-`9` or `a`-`z`.
pub open spec fn is_base36_digit(c: char) -> bool {
    (48 <= (c as u32) && (c as u32) <= 57) || (97 <= (c as u32) && (c as u32) <= 122)
}

/// The base-36 encoding of `v` in `n` characters has exactly `n` characters,
/// each `0`-`9` or `a`-`z`, and its last `k` characters are the encoding in
/// `k` characters: a longer ID extends a shorter one on the left.
pub proof fn law_base36_digits(v: nat, n: nat, k: nat)
    requires
        k <= n,
    ensures
        base36(v, n).len() == n,
        forall|i: int| 0 <= i < n ==> is_base36_digit(#[trigger] base36(v, n)[i]),
        base36(v, n).skip(n - k) == base36(v, k),
    decreases n,
{
    if n > 0 {
        law_base36_digits(v / 36, (n - 1) as nat, if k > 0 { (k - 1) as nat } else { 0 });
        let a = base36(v / 36, (n - 1) as nat);
        let d = v % 36;
        let c = base36_char(d);
        assert(is_base36_digit(c)) by {
            if d < 10 {
                assert(((d + 48) as u8) as u32 == d + 48);
            } else {
                assert(((d - 10 + 97) as u8) as u32 == d - 10 + 97);
            }
        }
        assert forall|i: int| 0 <= i < n implies is_base36_digit(#[trigger] base36(v, n)[i]) by {
            if i < n - 1 {
                assert(base36(v, n)[i] == a[i]);
            }
        }
        if k == 0 {
            assert(base36(v, n).skip(n as int) =~= Seq::<char>::empty());
        } else {
            assert(base36(v, n).skip(n - k) =~= a.skip((n - 1) - (k - 1)).push(c));
        }
    } else {
        assert(base36(v, 0).skip(0) =~= base36(v, 0));
    }
}

/// Encode a hash value as a base-36 string of exactly `len` characters.
/// Uses the lowest-order digits of the base-36 representation.
pub fn encode_base36(value: u128, len: usize) -> (r: String)
    ensures
        r@ == base36(value as nat, len as nat),
{
    string_of(base36_chars(value, len).as_slice())
}

/// The lowest `len` base-36 digits of `value`, as characters.
fn base36_chars(value: u128, len: usize) -> (r: Vec<char>)
    ensures
        r@ =~= base36(value as nat, len as nat),
        r@.len() == len,
    decreases len,
{
    if len == 0 {
        return Vec::new();
    }
    let mut r = base36_chars(value / 36, len - 1);
    let d = (value % 36) as u8;
    let c = if d < 10 { (d + 48) as char } else { (d - 10 + 97) as char };
    r.push(c);
    proof {
        assert(base36(value as nat, len as nat) == base36((value / 36) as nat, (len - 1) as nat).push(base36_char((value % 36) as nat)));
    }
    r
}

} // verus!

verus! {

/// A fact as ID assignment sees it: its label and its explicit ID, if any.
pub type LabelId = (Seq<char>, Option<Seq<char>>);

/// The hash of a label, as a number.
pub open spec fn label_hash(label: Seq<char>) -> nat {
    fnv1a(vstd::utf8::encode_utf8(label)) as nat
}

/// The longest hash prefix an ID uses: 25 base-36 digits cover the 128-bit hash.
pub open spec fn max_digits() -> nat {
    25
}

/// Whether some other fact without an explicit ID, whose label hashes
/// differently, has the same lowest `l` base-36 digits as fact `i`.
pub open spec fn shares_digits(fs: Seq<LabelId>, i: int, l: nat) -> bool {
    exists|j: int|
        0 <= j < fs.len() && (#[trigger] fs[j]).1 is None && label_hash(fs[j].0) != label_hash(fs[i].0)
            && base36(label_hash(fs[j].0), l) == base36(label_hash(fs[i].0), l)
}

/// The fewest digits from `l` on (at most `max_digits`) that set fact `i`
/// apart from every differently hashed computed ID.
pub open spec fn digits_from(fs: Seq<LabelId>, i: int, l: nat) -> nat
    decreases max_digits() - l,
{
    if l >= max_digits() || !shares_digits(fs, i, l) {
        l
    } else {
        digits_from(fs, i, l + 1)
    }
}

/// The number of hash digits fact `i` needs: at least three, more while another
/// label's hash agrees with it in that many digits.
pub open spec fn id_digits(fs: Seq<LabelId>, i: int) -> nat {
    digits_from(fs, i, 3)
}

/// Whether an earlier fact without an explicit ID has a label with the same hash.
pub open spec fn same_hash_before(fs: Seq<LabelId>, i: int) -> bool {
    exists|j: int| 0 <= j < i && (#[trigger] fs[j]).1 is None && label_hash(fs[j].0) == label_hash(fs[i].0)
}

/// The explicit IDs of the facts, in order.
pub open spec fn explicit_ids(fs: Seq<LabelId>) -> Seq<Seq<char>>
    decreases fs.len(),
{
    if fs.len() == 0 {
        seq![]
    } else {
        explicit_ids(fs.drop_last()) + match fs.last().1 {
            Some(e) => seq![e],
            None => seq![],
        }
    }
}

/// The first length from `l` to `max_digits` at which the hash digits of `h`
/// are not taken.
pub open spec fn first_free_len(h: nat, t: Seq<Seq<char>>, l: nat) -> Option<nat>
    decreases max_digits() + 1 - l,
{
    if l > max_digits() {
        None
    } else if !t.contains(base36(h, l)) {
        Some(l)
    } else {
        first_free_len(h, t, l + 1)
    }
}

/// The first counter from `m` at which `b` followed by the counter is not
/// taken, trying at most `fuel` counters.
pub open spec fn first_free_suffix(b: Seq<char>, t: Seq<Seq<char>>, m: nat, fuel: nat) -> nat
    decreases fuel,
{
    if fuel == 0 || !t.contains(b + decimal(m)) {
        m
    } else {
        first_free_suffix(b, t, m + 1, (fuel - 1) as nat)
    }
}

/// What a counter is appended to: the fact's hash digits when an earlier fact
/// has the same hash, else all its digits.
pub open spec fn suffix_base(fs: Seq<LabelId>, i: int) -> Seq<char> {
    if same_hash_before(fs, i) {
        base36(label_hash(fs[i].0), id_digits(fs, i))
    } else {
        base36(label_hash(fs[i].0), max_digits())
    }
}

/// The ID computed for fact `i` when the IDs in `t` are taken: its hash
/// digits, as few as set it apart (three when nothing collides) and as many as
/// make it free; after an earlier fact with the same hash, or when every length
/// is taken, those digits followed by the first free counter 1, 2, ...
pub open spec fn computed_id(fs: Seq<LabelId>, i: int, t: Seq<Seq<char>>) -> Seq<char> {
    let l = first_free_len(label_hash(fs[i].0), t, id_digits(fs, i));
    if !same_hash_before(fs, i) && l is Some {
        base36(label_hash(fs[i].0), l->Some_0)
    } else {
        let b = suffix_base(fs, i);
        b + decimal(first_free_suffix(b, t, 1, t.len() + 1))
    }
}

/// The IDs of the first `n` facts: each explicit ID as it is, each other fact's
/// ID computed in file order with every explicit ID and every earlier ID taken.
#[verifier::opaque]
pub open spec fn assign_upto(fs: Seq<LabelId>, n: nat) -> Seq<Seq<char>>
    decreases n,
{
    if n == 0 {
        seq![]
    } else {
        let prev = assign_upto(fs, (n - 1) as nat);
        prev.push(
            match fs[n - 1].1 {
                Some(e) => e,
                None => computed_id(fs, n - 1, explicit_ids(fs) + prev),
            },
        )
    }
}

/// The IDs of all facts.
pub open spec fn assign_spec(fs: Seq<LabelId>) -> Seq<Seq<char>> {
    assign_upto(fs, fs.len())
}

/// The facts of a slice as `LabelId`s.
pub open spec fn label_ids(v: Seq<(String, Option<String>)>) -> Seq<LabelId> {
    v.map_values(|p: (String, Option<String>)| (p.0@, crate::model::opt_view(p.1)))
}

proof fn lemma_assign_upto_len(fs: Seq<LabelId>, n: nat)
    ensures
        assign_upto(fs, n).len() == n,
    decreases n,
{
    reveal(assign_upto);
    if n > 0 {
        lemma_assign_upto_len(fs, (n - 1) as nat);
    }
}

proof fn lemma_assign_upto_prefix(fs: Seq<LabelId>, n: nat, m: nat)
    requires
        m <= n,
    ensures
        assign_upto(fs, n).take(m as int) == assign_upto(fs, m),
    decreases n,
{
    reveal(assign_upto);
    lemma_assign_upto_len(fs, n);
    lemma_assign_upto_len(fs, m);
    if m < n {
        lemma_assign_upto_prefix(fs, (n - 1) as nat, m);
        lemma_assign_upto_len(fs, (n - 1) as nat);
        assert(assign_upto(fs, n).take(m as int) =~= assign_upto(fs, (n - 1) as nat).take(m as int));
    } else {
        assert(assign_upto(fs, n).take(m as int) =~= assign_upto(fs, n));
    }
}

// ---------------------------------------------------------------------------
// Counters tell IDs apart
// ---------------------------------------------------------------------------

proof fn lemma_decimal_len(n: nat)
    ensures
        decimal(n).len() >= 1,
        n >= 10 ==> decimal(n).len() >= 2,
    decreases n,
{
    if n >= 10 {
        lemma_decimal_len(n / 10);
    }
}

proof fn lemma_digit_char_injective(a: nat, b: nat)
    requires
        a < 10,
        b < 10,
        crate::text::digit_char(a) == crate::text::digit_char(b),
    ensures
        a == b,
{
    assert(crate::text::digit_char(a) as u32 == a + 48);
    assert(crate::text::digit_char(b) as u32 == b + 48);
}

proof fn lemma_decimal_injective(a: nat, b: nat)
    requires
        decimal(a) == decimal(b),
    ensures
        a == b,
    decreases a,
{
    lemma_decimal_len(a);
    lemma_decimal_len(b);
    if a < 10 && b < 10 {
        assert(decimal(a)[0] == crate::text::digit_char(a));
        assert(decimal(b)[0] == crate::text::digit_char(b));
        lemma_digit_char_injective(a, b);
    } else if a >= 10 && b >= 10 {
        assert(decimal(a).last() == crate::text::digit_char(a % 10));
        assert(decimal(b).last() == crate::text::digit_char(b % 10));
        lemma_digit_char_injective(a % 10, b % 10);
        assert(decimal(a).drop_last() =~= decimal(a / 10));
        assert(decimal(b).drop_last() =~= decimal(b / 10));
        lemma_decimal_injective(a / 10, b / 10);
    }
}

/// The IDs `b` followed by the counters 1 to `k`.
spec fn counted_ids(b: Seq<char>, k: nat) -> Set<Seq<char>>
    decreases k,
{
    if k == 0 {
        Set::empty()
    } else {
        counted_ids(b, (k - 1) as nat).insert(b + decimal(k))
    }
}

proof fn lemma_counted_ids(b: Seq<char>, k: nat)
    ensures
        counted_ids(b, k).finite(),
        counted_ids(b, k).len() == k,
        forall|x: Seq<char>| #[trigger] counted_ids(b, k).contains(x) ==> exists|c: nat| 1 <= c <= k && x == b + decimal(c),
    decreases k,
{
    if k > 0 {
        lemma_counted_ids(b, (k - 1) as nat);
        let prev = counted_ids(b, (k - 1) as nat);
        if prev.contains(b + decimal(k)) {
            let c = choose|c: nat| 1 <= c <= k - 1 && b + decimal(k) == b + decimal(c);
            assert((b + decimal(k)).skip(b.len() as int) =~= decimal(k));
            assert((b + decimal(c)).skip(b.len() as int) =~= decimal(c));
            lemma_decimal_injective(k, c);
        }
        assert forall|x: Seq<char>| #[trigger] counted_ids(b, k).contains(x) implies exists|c: nat| 1 <= c <= k && x == b + decimal(c) by {
            if x != b + decimal(k) {
                assert(prev.contains(x));
            }
        }
    }
}

proof fn lemma_suffix_scan(b: Seq<char>, t: Seq<Seq<char>>, m: nat, fuel: nat)
    requires
        m >= 1,
    ensures
        m <= first_free_suffix(b, t, m, fuel) <= m + fuel,
        forall|c: nat| m <= c < first_free_suffix(b, t, m, fuel) ==> t.contains(#[trigger] (b + decimal(c))),
        first_free_suffix(b, t, m, fuel) < m + fuel ==> !t.contains(b + decimal(first_free_suffix(b, t, m, fuel))),
    decreases fuel,
{
    if fuel > 0 && t.contains(b + decimal(m)) {
        lemma_suffix_scan(b, t, m + 1, (fuel - 1) as nat);
    }
}

/// Of the first `t.len() + 1` counters after `b`, one is free.
proof fn lemma_suffix_free(b: Seq<char>, t: Seq<Seq<char>>)
    ensures
        first_free_suffix(b, t, 1, t.len() + 1) <= t.len() + 1,
        !t.contains(b + decimal(first_free_suffix(b, t, 1, t.len() + 1))),
{
    let k = t.len() + 1;
    lemma_suffix_scan(b, t, 1, k);
    let r = first_free_suffix(b, t, 1, k);
    if r == 1 + k {
        lemma_counted_ids(b, k);
        broadcast use vstd::seq_lib::seq_to_set_is_finite;
        assert forall|x: Seq<char>| #[trigger] counted_ids(b, k).contains(x) implies t.to_set().contains(x) by {
            let c = choose|c: nat| 1 <= c <= k && x == b + decimal(c);
            assert(t.contains(b + decimal(c)));
        }
        vstd::set_lib::lemma_len_subset(counted_ids(b, k), t.to_set());
        t.lemma_cardinality_of_set();
    }
}

proof fn lemma_first_free_len(h: nat, t: Seq<Seq<char>>, l: nat)
    ensures
        first_free_len(h, t, l) matches Some(k) ==> l <= k <= max_digits() && !t.contains(base36(h, k)),
    decreases max_digits() + 1 - l,
{
    if l <= max_digits() && t.contains(base36(h, l)) {
        lemma_first_free_len(h, t, l + 1);
    }
}

/// A computed ID is never one of the taken IDs.
proof fn lemma_computed_id_free(fs: Seq<LabelId>, i: int, t: Seq<Seq<char>>)
    ensures
        !t.contains(computed_id(fs, i, t)),
{
    lemma_first_free_len(label_hash(fs[i].0), t, id_digits(fs, i));
    lemma_suffix_free(suffix_base(fs, i), t);
}

proof fn lemma_explicit_ids(fs: Seq<LabelId>, j: int)
    requires
        0 <= j < fs.len(),
        fs[j].1 is Some,
    ensures
        explicit_ids(fs).contains(fs[j].1->Some_0),
    decreases fs.len(),
{
    let e = match fs.last().1 {
        Some(e) => seq![e],
        None => seq![],
    };
    assert(explicit_ids(fs) == explicit_ids(fs.drop_last()) + e);
    if j == fs.len() - 1 {
        assert(e[0] == fs[j].1->Some_0);
        assert((explicit_ids(fs.drop_last()) + e)[explicit_ids(fs.drop_last()).len() as int] == fs[j].1->Some_0);
    } else {
        lemma_explicit_ids(fs.drop_last(), j);
        let x = fs[j].1->Some_0;
        let p = explicit_ids(fs.drop_last());
        let k = choose|k: int| 0 <= k < p.len() && p[k] == x;
        assert((p + e)[k] == x);
    }
}

proof fn lemma_assign_at(fs: Seq<LabelId>, i: int)
    requires
        0 <= i < fs.len(),
    ensures
        assign_spec(fs).len() == fs.len(),
        assign_spec(fs).take(i) == assign_upto(fs, i as nat),
        assign_upto(fs, i as nat).len() == i,
        assign_spec(fs)[i] == match fs[i].1 {
            Some(e) => e,
            None => computed_id(fs, i, explicit_ids(fs) + assign_upto(fs, i as nat)),
        },
{
    lemma_assign_upto_len(fs, fs.len());
    lemma_assign_upto_len(fs, i as nat);
    lemma_assign_upto_prefix(fs, fs.len(), (i + 1) as nat);
    lemma_assign_upto_prefix(fs, fs.len(), i as nat);
    let a = assign_spec(fs);
    assert(a.take(i + 1)[i] == a[i]);
    reveal(assign_upto);
    assert(assign_upto(fs, (i + 1) as nat) == assign_upto(fs, i as nat).push(
        match fs[i].1 {
            Some(e) => e,
            None => computed_id(fs, i, explicit_ids(fs) + assign_upto(fs, i as nat)),
        },
    ));
}

/// The three-digit code of a label: the lowest three base-36 digits of its hash.
pub open spec fn short_code(label: Seq<char>) -> Seq<char> {
    base36(label_hash(label), 3)
}

/// No fact has an explicit ID and no two facts share a three-digit code.
pub open spec fn codes_apart(fs: Seq<LabelId>) -> bool {
    &&& forall|i: int| 0 <= i < fs.len() ==> (#[trigger] fs[i]).1 is None
    &&& forall|i: int, j: int| 0 <= i < fs.len() && 0 <= j < fs.len() && i != j ==> short_code(#[trigger] fs[i].0)
        != short_code(#[trigger] fs[j].0)
}

proof fn lemma_no_explicit_ids(fs: Seq<LabelId>)
    requires
        forall|i: int| 0 <= i < fs.len() ==> (#[trigger] fs[i]).1 is None,
    ensures
        explicit_ids(fs) == Seq::<Seq<char>>::empty(),
    decreases fs.len(),
{
    if fs.len() > 0 {
        assert forall|i: int| 0 <= i < fs.drop_last().len() implies (#[trigger] fs.drop_last()[i]).1 is None by {
            assert(fs.drop_last()[i] == fs[i]);
        }
        lemma_no_explicit_ids(fs.drop_last());
        assert(fs.last() == fs[fs.len() - 1]);
        assert(explicit_ids(fs) =~= Seq::<Seq<char>>::empty());
    }
}

proof fn lemma_short_ids_upto(fs: Seq<LabelId>, i: int)
    requires
        codes_apart(fs),
        0 <= i < fs.len(),
    ensures
        assign_spec(fs)[i] == short_code(fs[i].0),
    decreases i,
{
    let a = assign_spec(fs);
    lemma_assign_at(fs, i);
    assert forall|j: int| 0 <= j < i implies #[trigger] a[j] == short_code(fs[j].0) by {
        lemma_short_ids_upto(fs, j);
    }
    lemma_no_explicit_ids(fs);
    let t = explicit_ids(fs) + assign_upto(fs, i as nat);
    assert(t =~= a.take(i));
    let h = label_hash(fs[i].0);
    assert(fs[i].1 is None);
    assert(!t.contains(short_code(fs[i].0))) by {
        if t.contains(short_code(fs[i].0)) {
            let k = choose|k: int| 0 <= k < t.len() && t[k] == short_code(fs[i].0);
            assert(t[k] == a[k]);
            assert(a[k] == short_code(fs[k].0));
        }
    }
    assert(!same_hash_before(fs, i)) by {
        if same_hash_before(fs, i) {
            let j = choose|j: int| 0 <= j < i && (#[trigger] fs[j]).1 is None && label_hash(fs[j].0) == label_hash(fs[i].0);
            assert(short_code(fs[j].0) == short_code(fs[i].0));
        }
    }
    assert(!shares_digits(fs, i, 3)) by {
        if shares_digits(fs, i, 3) {
            let j = choose|j: int|
                0 <= j < fs.len() && (#[trigger] fs[j]).1 is None && label_hash(fs[j].0) != label_hash(fs[i].0)
                    && base36(label_hash(fs[j].0), 3) == base36(label_hash(fs[i].0), 3);
            assert(short_code(fs[j].0) == short_code(fs[i].0));
        }
    }
    assert(id_digits(fs, i) == 3);
    assert(first_free_len(h, t, 3) == Some(3nat));
}

/// When no fact has an explicit ID and no two labels share a three-digit code,
/// every fact's ID is the three-digit code of its own label: it depends on that
/// label alone, not on the other facts or their order.
pub proof fn law_short_ids_without_collisions(fs: Seq<LabelId>)
    requires
        codes_apart(fs),
    ensures
        assign_spec(fs).len() == fs.len(),
        forall|i: int| 0 <= i < fs.len() ==> #[trigger] assign_spec(fs)[i] == short_code(fs[i].0),
{
    lemma_assign_upto_len(fs, fs.len());
    assert forall|i: int| 0 <= i < fs.len() implies #[trigger] assign_spec(fs)[i] == short_code(fs[i].0) by {
        lemma_short_ids_upto(fs, i);
    }
}

/// The IDs of facts without an explicit ID are pairwise distinct, and differ
/// from every explicit ID; every explicit ID is kept as it is.
pub proof fn law_computed_ids_distinct(fs: Seq<LabelId>)
    ensures
        assign_spec(fs).len() == fs.len(),
        forall|i: int| 0 <= i < fs.len() && fs[i].1 is Some ==> #[trigger] assign_spec(fs)[i] == fs[i].1->Some_0,
        forall|i: int, j: int|
            0 <= i < fs.len() && 0 <= j < fs.len() && i != j && fs[i].1 is None ==> #[trigger] assign_spec(fs)[i]
                != #[trigger] assign_spec(fs)[j],
{
    let a = assign_spec(fs);
    lemma_assign_upto_len(fs, fs.len());
    assert forall|i: int| 0 <= i < fs.len() && fs[i].1 is Some implies #[trigger] a[i] == fs[i].1->Some_0 by {
        lemma_assign_at(fs, i);
    }
    assert forall|i: int, j: int|
        0 <= i < fs.len() && 0 <= j < fs.len() && i != j && fs[i].1 is None implies #[trigger] a[i] != #[trigger] a[j] by {
        lemma_assign_at(fs, i);
        let prev = assign_upto(fs, i as nat);
        let t = explicit_ids(fs) + prev;
        lemma_computed_id_free(fs, i, t);
        if j < i {
            assert(prev[j] == a.take(i)[j]);
            assert(t[explicit_ids(fs).len() + j] == a[j]);
        } else {
            lemma_assign_at(fs, j);
            let prevj = assign_upto(fs, j as nat);
            let tj = explicit_ids(fs) + prevj;
            assert(prevj[i] == a.take(j)[i]);
            assert(tj[explicit_ids(fs).len() + i] == a[i]);
            match fs[j].1 {
                Some(e) => {
                    lemma_explicit_ids(fs, j);
                    let p = explicit_ids(fs);
                    let k = choose|k: int| 0 <= k < p.len() && p[k] == e;
                    assert(t[k] == e);
                },
                None => {
                    lemma_computed_id_free(fs, j, tj);
                },
            }
        }
    }
}

/// When no two facts carry the same explicit ID, no two facts get the same ID.
pub proof fn law_ids_distinct(fs: Seq<LabelId>)
    requires
        forall|i: int, j: int|
            0 <= i < fs.len() && 0 <= j < fs.len() && i != j && fs[i].1 is Some && fs[j].1 is Some ==> #[trigger] fs[i].1
                != #[trigger] fs[j].1,
    ensures
        forall|i: int, j: int|
            0 <= i < fs.len() && 0 <= j < fs.len() && i != j ==> #[trigger] assign_spec(fs)[i] != #[trigger] assign_spec(
                fs,
            )[j],
{
    law_computed_ids_distinct(fs);
    let a = assign_spec(fs);
    assert forall|i: int, j: int| 0 <= i < fs.len() && 0 <= j < fs.len() && i != j implies #[trigger] a[i] != #[trigger] a[j] by {
        if fs[i].1 is None {
        } else if fs[j].1 is None {
            assert(a[j] != a[i]);
        } else {
            assert(fs[i].1 != fs[j].1);
            assert(a[i] == fs[i].1->Some_0);
            assert(a[j] == fs[j].1->Some_0);
        }
    }
}

// ---------------------------------------------------------------------------
// Computing the IDs
// ---------------------------------------------------------------------------

fn decimal_big(n: u128) -> (r: Vec<char>)
    ensures
        r@ =~= decimal(n as nat),
    decreases n,
{
    if n < 10 {
        let c = ((n as u8) + 48) as char;
        vec![c]
    } else {
        let mut r = decimal_big(n / 10);
        let c = (((n % 10) as u8) + 48) as char;
        r.push(c);
        r
    }
}

/// `shares_digits` for fact `i`.
fn shares_exec(fs: &[(String, Option<String>)], hashes: &Vec<u128>, i: usize, l: usize) -> (b: bool)
    requires
        hashes@.len() == fs@.len(),
        i < fs@.len(),
        forall|j: int| 0 <= j < fs@.len() ==> hashes@[j] == label_hash(#[trigger] label_ids(fs@)[j].0),
    ensures
        b == shares_digits(label_ids(fs@), i as int, l as nat),
{
    let ghost lv = label_ids(fs@);
    let mine = base36_chars(hashes[i], l);
    let mut j: usize = 0;
    while j < fs.len()
        invariant
            j <= fs@.len(),
            lv == label_ids(fs@),
            hashes@.len() == fs@.len(),
            i < fs@.len(),
            mine@ == base36(label_hash(lv[i as int].0), l as nat),
            forall|k: int| 0 <= k < fs@.len() ==> hashes@[k] == label_hash(#[trigger] lv[k].0),
            forall|k: int|
                0 <= k < j ==> !((#[trigger] lv[k]).1 is None && label_hash(lv[k].0) != label_hash(lv[i as int].0)
                    && base36(label_hash(lv[k].0), l as nat) == base36(label_hash(lv[i as int].0), l as nat)),
        decreases fs.len() - j,
    {
        assert(lv[j as int].1 is None <==> fs@[j as int].1 is None);
        if fs[j].1.is_none() && hashes[j] != hashes[i] {
            let theirs = base36_chars(hashes[j], l);
            if same(theirs.as_slice(), mine.as_slice()) {
                return true;
            }
        }
        j += 1;
    }
    false
}

/// `id_digits` for fact `i`.
fn digits_exec(fs: &[(String, Option<String>)], hashes: &Vec<u128>, i: usize) -> (d: usize)
    requires
        hashes@.len() == fs@.len(),
        i < fs@.len(),
        forall|j: int| 0 <= j < fs@.len() ==> hashes@[j] == label_hash(#[trigger] label_ids(fs@)[j].0),
    ensures
        d == id_digits(label_ids(fs@), i as int),
        3 <= d <= 25,
{
    let ghost lv = label_ids(fs@);
    let mut l: usize = 3;
    while l < 25 && shares_exec(fs, hashes, i, l)
        invariant
            3 <= l <= 25,
            lv == label_ids(fs@),
            hashes@.len() == fs@.len(),
            i < fs@.len(),
            forall|j: int| 0 <= j < fs@.len() ==> hashes@[j] == label_hash(#[trigger] label_ids(fs@)[j].0),
            digits_from(lv, i as int, 3) == digits_from(lv, i as int, l as nat),
        decreases 25 - l,
    {
        l += 1;
    }
    l
}

/// `computed_id` for fact `i`, with `taken` holding the taken IDs.
fn computed_exec(
    fs: &[(String, Option<String>)],
    hashes: &Vec<u128>,
    i: usize,
    taken: &Vec<Vec<char>>,
) -> (r: Vec<char>)
    requires
        hashes@.len() == fs@.len(),
        i < fs@.len(),
        forall|j: int| 0 <= j < fs@.len() ==> hashes@[j] == label_hash(#[trigger] label_ids(fs@)[j].0),
    ensures
        r@ == computed_id(label_ids(fs@), i as int, vv(taken@)),
{
    let ghost lv = label_ids(fs@);
    let ghost t = vv(taken@);
    let h = hashes[i];
    let d = digits_exec(fs, hashes, i);
    let mut same_before = false;
    let mut j: usize = 0;
    while j < i
        invariant
            j <= i < fs@.len(),
            lv == label_ids(fs@),
            hashes@.len() == fs@.len(),
            h == hashes@[i as int],
            forall|k: int| 0 <= k < fs@.len() ==> hashes@[k] == label_hash(#[trigger] label_ids(fs@)[k].0),
            same_before == exists|k: int|
                0 <= k < j && (#[trigger] lv[k]).1 is None && label_hash(lv[k].0) == label_hash(lv[i as int].0),
        decreases i - j,
    {
        assert(lv[j as int].1 is None <==> fs@[j as int].1 is None);
        if fs[j].1.is_none() && hashes[j] == h {
            same_before = true;
        }
        j += 1;
    }
    assert(same_before == same_hash_before(lv, i as int));
    proof {
        assert(h as nat == label_hash(lv[i as int].0));
    }
    if !same_before {
        match free_len_exec(h, d, taken) {
            Some(c) => {
                return c;
            },
            None => {},
        }
    }
    let b = if same_before {
        base36_chars(h, d)
    } else {
        base36_chars(h, 25)
    };
    free_suffix_exec(b, taken)
}

/// `first_free_len` over the taken IDs in `taken`, as the ID it gives.
fn free_len_exec(h: u128, d: usize, taken: &Vec<Vec<char>>) -> (r: Option<Vec<char>>)
    requires
        d <= 25,
    ensures
        match (r, first_free_len(h as nat, vv(taken@), d as nat)) {
            (Some(c), Some(l)) => c@ == base36(h as nat, l),
            (None, None) => true,
            _ => false,
        },
{
    let ghost t = vv(taken@);
    let mut l: usize = d;
    while l <= 25
        invariant
            d <= l <= 26,
            t == vv(taken@),
            first_free_len(h as nat, t, d as nat) == first_free_len(h as nat, t, l as nat),
        decreases 26 - l,
    {
        let c = base36_chars(h, l);
        if !contains_seq(taken, c.as_slice()) {
            return Some(c);
        }
        l += 1;
    }
    None
}

/// `b` followed by the first free counter (see `first_free_suffix`).
fn free_suffix_exec(b: Vec<char>, taken: &Vec<Vec<char>>) -> (r: Vec<char>)
    ensures
        r@ == b@ + decimal(first_free_suffix(b@, vv(taken@), 1, vv(taken@).len() + 1)),
{
    let ghost t = vv(taken@);
    let bound: u128 = taken.len() as u128 + 1;
    let mut m: u128 = 1;
    let mut fuel: u128 = bound;
    while fuel > 0
        invariant
            m + fuel == bound + 1,
            bound == t.len() + 1,
            bound <= usize::MAX + 1,
            t == vv(taken@),
            first_free_suffix(b@, t, 1, t.len() + 1) == first_free_suffix(b@, t, m as nat, fuel as nat),
        decreases fuel,
    {
        let mut c = crate::text::copy_chars(b.as_slice());
        let mut ds = decimal_big(m);
        c.append(&mut ds);
        if !contains_seq(taken, c.as_slice()) {
            return c;
        }
        m += 1;
        fuel -= 1;
    }
    let mut c = crate::text::copy_chars(b.as_slice());
    let mut ds = decimal_big(m);
    c.append(&mut ds);
    c
}

/// Assign IDs to all facts: each explicit ID as it is, and for each other fact,
/// in order, the shortest hash of its label that no other label's hash shares
/// and that no explicit or earlier ID holds, with a counter after it where
/// needed (see `assign_spec`).
pub fn assign_ids(facts: &[(String, Option<String>)]) -> (ids: Vec<String>)
    ensures
        ids@.len() == facts@.len(),
        crate::model::strings_view(ids@) == assign_spec(label_ids(facts@)),
{
    let n = facts.len();
    let ghost lv = label_ids(facts@);
    let mut hashes: Vec<u128> = Vec::new();
    let mut i: usize = 0;
    while i < n
        invariant
            n == facts@.len(),
            lv == label_ids(facts@),
            i <= n,
            hashes@.len() == i,
            forall|j: int| 0 <= j < i ==> hashes@[j] == label_hash(#[trigger] lv[j].0),
        decreases n - i,
    {
        assert(lv[i as int].0 == facts@[i as int].0@);
        hashes.push(full_hash(facts[i].0.as_str()));
        i += 1;
    }
    // The explicit IDs, all taken from the start.
    let mut taken: Vec<Vec<char>> = Vec::new();
    i = 0;
    assert(lv.take(0) =~= Seq::<LabelId>::empty());
    while i < n
        invariant
            n == facts@.len(),
            lv == label_ids(facts@),
            i <= n,
            vv(taken@) == explicit_ids(lv.take(i as int)),
        decreases n - i,
    {
        let ghost before = vv(taken@);
        proof {
            assert(lv.take(i + 1).drop_last() =~= lv.take(i as int));
            assert(lv.take(i + 1).last() == lv[i as int]);
        }
        match &facts[i].1 {
            Some(e) => {
                taken.push(chars_of_string(e));
                assert(vv(taken@) =~= before + seq![e@]);
            },
            None => {
                assert(vv(taken@) =~= before + Seq::<Seq<char>>::empty());
            },
        }
        i += 1;
    }
    assert(lv.take(n as int) =~= lv);
    let ghost ex = vv(taken@);
    let mut ids: Vec<Vec<char>> = Vec::new();
    i = 0;
    proof {
        reveal(assign_upto);
        assert(vv(ids@) =~= assign_upto(lv, 0));
        assert(vv(taken@) =~= ex + vv(ids@));
    }
    while i < n
        invariant
            n == facts@.len(),
            lv == label_ids(facts@),
            i <= n,
            hashes@.len() == n,
            forall|j: int| 0 <= j < n ==> hashes@[j] == label_hash(#[trigger] label_ids(facts@)[j].0),
            ex == explicit_ids(lv),
            vv(ids@) == assign_upto(lv, i as nat),
            vv(taken@) == ex + vv(ids@),
        decreases n - i,
    {
        let id = match &facts[i].1 {
            Some(e) => chars_of_string(e),
            None => computed_exec(facts, &hashes, i, &taken),
        };
        proof {
            assert(lv[i as int].1 == crate::model::opt_view(facts@[i as int].1));
            reveal(assign_upto);
        }
        let ghost before = vv(ids@);
        let ghost tb = vv(taken@);
        ids.push(id.clone());
        taken.push(id);
        assert(vv(ids@) =~= before.push(id@));
        assert(vv(taken@) =~= tb.push(id@));
        assert(vv(taken@) =~= ex + vv(ids@));
        i += 1;
    }
    proof {
        lemma_assign_upto_len(lv, n as nat);
        assert(vv(ids@).len() == ids@.len());
    }
    let mut out: Vec<String> = Vec::new();
    i = 0;
    while i < n
        invariant
            n == facts@.len(),
            ids@.len() == n,
            i <= n,
            out@.len() == i,
            forall|j: int| 0 <= j < i ==> (#[trigger] out@[j])@ == ids@[j]@,
        decreases n - i,
    {
        out.push(string_of(ids[i].as_slice()));
        i += 1;
    }
    proof {
        lemma_assign_upto_len(lv, n as nat);
        assert(crate::model::strings_view(out@) =~= vv(ids@));
    }
    out
}

} // verus!


verus! {

/// `ids` is an assignment for facts with these labels and explicit ids: one id per
/// `ids` are the IDs of facts with these labels and explicit IDs (`assign_spec`).
pub open spec fn ids_assigned(labels: Seq<(Seq<char>, Option<Seq<char>>)>, ids: Seq<Seq<char>>) -> bool {
    &&& ids.len() == labels.len()
    &&& ids == assign_spec(labels)
}

/// Index of the first occurrence of `x` in `s`, if any.
pub open spec fn first_index(s: Seq<Seq<char>>, x: Seq<char>) -> Option<nat>
    decreases s.len(),
{
    if s.len() == 0 {
        None
    } else if s[0] == x {
        Some(0)
    } else {
        match first_index(s.drop_first(), x) {
            Some(k) => Some(k + 1),
            None => None,
        }
    }
}

pub proof fn lemma_first_index(s: Seq<Seq<char>>, x: Seq<char>, i: int)
    requires
        0 <= i <= s.len(),
        forall|j: int| 0 <= j < i ==> #[trigger] s[j] != x,
    ensures
        i < s.len() && s[i] == x ==> first_index(s, x) == Some(i as nat),
        i == s.len() ==> first_index(s, x) is None,
    decreases i,
{
    if s.len() > 0 && i > 0 {
        assert forall|j: int| 0 <= j < i - 1 implies #[trigger] s.drop_first()[j] != x by {
            assert(s.drop_first()[j] == s[j + 1]);
        }
        lemma_first_index(s.drop_first(), x, i - 1);
    }
}

/// Position of the first id equal to `target`.
pub fn position_of(ids: &Vec<String>, target: &str) -> (r: Option<usize>)
    ensures
        match r {
            Some(p) => first_index(crate::model::strings_view(ids@), target@) == Some(p as nat) && p < ids@.len(),
            None => first_index(crate::model::strings_view(ids@), target@) is None,
        },
{
    let ghost iv = crate::model::strings_view(ids@);
    let t = crate::text::chars_of(target);
    let mut i: usize = 0;
    while i < ids.len()
        invariant
            i <= ids@.len(),
            iv == crate::model::strings_view(ids@),
            t@ == target@,
            forall|j: int| 0 <= j < i ==> #[trigger] iv[j] != target@,
        decreases ids.len() - i,
    {
        let c = crate::text::chars_of(ids[i].as_str());
        if crate::text::same(c.as_slice(), t.as_slice()) {
            proof {
                lemma_first_index(iv, target@, i as int);
            }
            return Some(i);
        }
        i += 1;
    }
    proof {
        lemma_first_index(iv, target@, i as int);
    }
    None
}

/// Assign IDs to facts; the result is an assignment for their labels and explicit ids.
pub(crate) fn assign(facts: &Vec<(String, Option<String>)>) -> (ids: Vec<String>)
    ensures
        ids_assigned(crate::locate::labels_view(facts@), crate::model::strings_view(ids@)),
{
    let ids = assign_ids(facts.as_slice());
    assert(label_ids(facts@) =~= crate::locate::labels_view(facts@));
    ids
}

} // verus!

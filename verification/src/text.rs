//! Character-level text utilities shared by the parser, writer and linter.
use vstd::prelude::*;

verus! {

/// The Unicode `White_Space` property, as `char::is_whitespace` documents it.
pub open spec fn is_ws(c: char) -> bool {
    let u = c as u32;
    (0x9 <= u && u <= 0xd) || u == 0x20 || u == 0x85 || u == 0xa0 || u == 0x1680
        || (0x2000 <= u && u <= 0x200a) || u == 0x2028 || u == 0x2029 || u == 0x202f
        || u == 0x205f || u == 0x3000
}

/// Whether `c` is Unicode white space.
pub fn is_whitespace(c: char) -> (b: bool)
    ensures
        b == is_ws(c),
{
    let u = c as u32;
    (0x9 <= u && u <= 0xd) || u == 0x20 || u == 0x85 || u == 0xa0 || u == 0x1680
        || (0x2000 <= u && u <= 0x200a) || u == 0x2028 || u == 0x2029 || u == 0x202f
        || u == 0x205f || u == 0x3000
}

/// Appends one character to a string (`String::push`).
#[verifier::external_body]
pub(crate) fn push_char(s: &mut String, c: char)
    ensures
        final(s)@ == old(s)@.push(c),
{
    s.push(c);
}

/// The characters of `s`, in order.
pub fn chars_of(s: &str) -> (v: Vec<char>)
    ensures
        v@ == s@,
{
    broadcast use vstd::string::group_string_axioms;
    let mut v: Vec<char> = Vec::new();
    for c in it: s.chars()
        invariant
            v@ == it.seq().take(it.index() as int),
            it.seq() == s@,
    {
        v.push(c);
    }
    v
}

/// A string made of the characters of `v`.
pub fn string_of(v: &[char]) -> (s: String)
    ensures
        s@ == v@,
{
    let mut s = String::new();
    let mut i: usize = 0;
    while i < v.len()
        invariant
            i <= v.len(),
            s@ == v@.take(i as int),
        decreases v.len() - i,
    {
        push_char(&mut s, v[i]);
        assert(v@.take(i + 1) == v@.take(i as int).push(v@[i as int]));
        i += 1;
    }
    assert(v@.take(v.len() as int) == v@);
    s
}

} // verus!

verus! {

/// Whether `p` is a prefix of `s`.
pub open spec fn starts_with(s: Seq<char>, p: Seq<char>) -> bool {
    p.len() <= s.len() && s.subrange(0, p.len() as int) =~= p
}

/// Whether `p` is a suffix of `s`.
pub open spec fn ends_with(s: Seq<char>, p: Seq<char>) -> bool {
    p.len() <= s.len() && s.subrange(s.len() - p.len(), s.len() as int) =~= p
}

/// Whether every character of `s` is white space (so `s.trim()` is empty).
pub open spec fn all_ws(s: Seq<char>) -> bool {
    forall|i: int| 0 <= i < s.len() ==> is_ws(#[trigger] s[i])
}

/// `s` without its leading white space.
pub open spec fn trim_start(s: Seq<char>) -> Seq<char>
    decreases s.len(),
{
    if s.len() > 0 && is_ws(s[0]) {
        trim_start(s.drop_first())
    } else {
        s
    }
}

/// `s` without its trailing white space.
pub open spec fn trim_end(s: Seq<char>) -> Seq<char>
    decreases s.len(),
{
    if s.len() > 0 && is_ws(s.last()) {
        trim_end(s.drop_last())
    } else {
        s
    }
}

/// `s` without leading and trailing white space.
pub open spec fn trim(s: Seq<char>) -> Seq<char> {
    trim_end(trim_start(s))
}

/// Length of the leading run of characters of `s` that are not white space.
pub open spec fn word_len(s: Seq<char>) -> nat
    decreases s.len(),
{
    if s.len() == 0 || is_ws(s[0]) {
        0
    } else {
        1 + word_len(s.drop_first())
    }
}

/// The white-space separated words of `s` (`str::split_whitespace`).
pub open spec fn words(s: Seq<char>) -> Seq<Seq<char>>
    decreases s.len(),
{
    let t = trim_start(s);
    if t.len() == 0 {
        seq![]
    } else {
        let n = word_len(t);
        if 0 < n <= t.len() && t.len() <= s.len() {
            seq![t.take(n as int)].add(words(t.skip(n as int)))
        } else {
            seq![]
        }
    }
}

/// The parts of `parts` joined with `sep` between neighbours (`[&str]::join`).
pub open spec fn join(parts: Seq<Seq<char>>, sep: Seq<char>) -> Seq<char>
    decreases parts.len(),
{
    if parts.len() == 0 {
        seq![]
    } else if parts.len() == 1 {
        parts[0]
    } else {
        join(parts.drop_last(), sep) + sep + parts.last()
    }
}

/// Index of the first occurrence of `c` in `s`, if any.
pub open spec fn find_char(s: Seq<char>, c: char) -> Option<nat>
    decreases s.len(),
{
    if s.len() == 0 {
        None
    } else if s[0] == c {
        Some(0)
    } else {
        match find_char(s.drop_first(), c) {
            Some(k) => Some(k + 1),
            None => None,
        }
    }
}

/// Index of the first occurrence of `pat` in `s`, if any (`str::find`).
pub open spec fn find(s: Seq<char>, pat: Seq<char>) -> Option<nat>
    decreases s.len(),
{
    if starts_with(s, pat) {
        Some(0)
    } else if s.len() == 0 {
        None
    } else {
        match find(s.drop_first(), pat) {
            Some(k) => Some(k + 1),
            None => None,
        }
    }
}

/// Whether `pat` occurs in `s` (`str::contains`).
pub open spec fn contains(s: Seq<char>, pat: Seq<char>) -> bool {
    find(s, pat) is Some
}

/// The pieces of `s` between occurrences of `c` (`str::split` on a character).
pub open spec fn split_char(s: Seq<char>, c: char) -> Seq<Seq<char>>
    decreases s.len(),
{
    match find_char(s, c) {
        None => seq![s],
        Some(k) => if k < s.len() {
            seq![s.take(k as int)].add(split_char(s.skip(k as int + 1), c))
        } else {
            seq![s]
        },
    }
}

/// `l` without one trailing carriage return.
pub open spec fn strip_cr(l: Seq<char>) -> Seq<char> {
    if l.len() > 0 && l.last() == '\r' {
        l.drop_last()
    } else {
        l
    }
}

/// The lines of `s` as `str::lines` gives them: split at `\n`, one trailing
/// `\r` removed from each line that a `\n` ends, no empty piece after a final `\n`.
pub open spec fn lines(s: Seq<char>) -> Seq<Seq<char>>
    decreases s.len(),
{
    if s.len() == 0 {
        seq![]
    } else {
        match find_char(s, '\n') {
            None => seq![s],
            Some(k) => if k < s.len() {
                seq![strip_cr(s.take(k as int))].add(lines(s.skip(k as int + 1)))
            } else {
                seq![s]
            },
        }
    }
}

/// ASCII lower-casing of one character.
pub open spec fn lower(c: char) -> char {
    if 'A' <= c && c <= 'Z' {
        ((c as u32) + 32) as char
    } else {
        c
    }
}

/// ASCII lower-casing of a sequence (`str::to_ascii_lowercase`).
pub open spec fn lower_seq(s: Seq<char>) -> Seq<char> {
    s.map_values(|c: char| lower(c))
}

/// Case-insensitive ASCII equality (`str::eq_ignore_ascii_case`).
pub open spec fn eq_ignore_case(a: Seq<char>, b: Seq<char>) -> bool {
    lower_seq(a) =~= lower_seq(b)
}

} // verus!

verus! {

/// A copy of `v[lo..hi]`.
pub fn slice_of(v: &[char], lo: usize, hi: usize) -> (r: Vec<char>)
    requires
        lo <= hi <= v@.len(),
    ensures
        r@ =~= v@.subrange(lo as int, hi as int),
{
    let mut r: Vec<char> = Vec::new();
    let mut i = lo;
    while i < hi
        invariant
            lo <= i <= hi <= v@.len(),
            r@ =~= v@.subrange(lo as int, i as int),
        decreases hi - i,
    {
        r.push(v[i]);
        i += 1;
    }
    r
}

/// Whether `p` is a prefix of `s`.
pub fn has_prefix(s: &[char], p: &[char]) -> (b: bool)
    ensures
        b == starts_with(s@, p@),
{
    if p.len() > s.len() {
        return false;
    }
    let mut i: usize = 0;
    while i < p.len()
        invariant
            p@.len() <= s@.len(),
            i <= p@.len(),
            forall|j: int| 0 <= j < i ==> s@[j] == p@[j],
        decreases p.len() - i,
    {
        if s[i] != p[i] {
            assert(s@.subrange(0, p@.len() as int)[i as int] != p@[i as int]);
            return false;
        }
        i += 1;
    }
    true
}

/// Whether `p` is a suffix of `s`.
pub fn has_suffix(s: &[char], p: &[char]) -> (b: bool)
    ensures
        b == ends_with(s@, p@),
{
    if p.len() > s.len() {
        return false;
    }
    let n = s.len();
    let off = n - p.len();
    let mut i: usize = 0;
    while i < p.len()
        invariant
            p@.len() <= s@.len(),
            off == s@.len() - p@.len(),
            off + p@.len() == s@.len(),
            n == s@.len(),
            i <= p@.len(),
            forall|j: int| 0 <= j < i ==> s@[off + j] == p@[j],
        decreases p.len() - i,
    {
        assert(off + i < s@.len());
        if s[off + i] != p[i] {
            assert(s@.subrange(off as int, s@.len() as int)[i as int] != p@[i as int]);
            return false;
        }
        i += 1;
    }
    true
}

/// Whether every character of `s` is white space.
pub fn is_blank(s: &[char]) -> (b: bool)
    ensures
        b == all_ws(s@),
{
    let mut i: usize = 0;
    while i < s.len()
        invariant
            i <= s@.len(),
            forall|j: int| 0 <= j < i ==> is_ws(s@[j]),
        decreases s.len() - i,
    {
        if !is_whitespace(s[i]) {
            return false;
        }
        i += 1;
    }
    true
}

pub proof fn lemma_skip_drop_first(s: Seq<char>, i: int)
    requires
        0 <= i < s.len(),
    ensures
        s.skip(i).drop_first() =~= s.skip(i + 1),
        s.skip(i)[0] == s[i],
{
}

pub proof fn lemma_take_drop_last(s: Seq<char>, i: int)
    requires
        0 < i <= s.len(),
    ensures
        s.take(i).drop_last() =~= s.take(i - 1),
        s.take(i).last() == s[i - 1],
{
}

/// Number of leading white-space characters of `s`.
pub fn leading_ws(s: &[char]) -> (k: usize)
    ensures
        k <= s@.len(),
        trim_start(s@) =~= s@.skip(k as int),
        forall|j: int| 0 <= j < k ==> is_ws(s@[j]),
        k < s@.len() ==> !is_ws(s@[k as int]),
{
    let mut i: usize = 0;
    assert(s@.skip(0) =~= s@);
    while i < s.len() && is_whitespace(s[i])
        invariant
            i <= s@.len(),
            trim_start(s@) == trim_start(s@.skip(i as int)),
            forall|j: int| 0 <= j < i ==> is_ws(s@[j]),
        decreases s.len() - i,
    {
        proof {
            lemma_skip_drop_first(s@, i as int);
        }
        i += 1;
    }
    proof { k_done(s@, i); }
    i
}

proof fn k_done(s: Seq<char>, i: usize)
    requires
        i <= s.len(),
        i < s.len() ==> !is_ws(s[i as int]),
    ensures
        trim_start(s.skip(i as int)) == s.skip(i as int),
{
    if i < s.len() {
        assert(s.skip(i as int)[0] == s[i as int]);
    }
}

/// Length of `s` without its trailing white space.
pub fn trailing_cut(s: &[char]) -> (k: usize)
    ensures
        k <= s@.len(),
        trim_end(s@) =~= s@.take(k as int),
        forall|j: int| k <= j < s@.len() ==> is_ws(s@[j]),
        k > 0 ==> !is_ws(s@[k - 1]),
{
    let mut i: usize = s.len();
    assert(s@.take(s@.len() as int) =~= s@);
    while i > 0 && is_whitespace(s[i - 1])
        invariant
            i <= s@.len(),
            trim_end(s@) == trim_end(s@.take(i as int)),
            forall|j: int| i <= j < s@.len() ==> is_ws(s@[j]),
        decreases i,
    {
        proof {
            lemma_take_drop_last(s@, i as int);
        }
        i -= 1;
    }
    proof {
        if i > 0 {
            assert(s@.take(i as int).last() == s@[i - 1]);
        }
        assert(s@.take(s@.len() as int) =~= s@);
    }
    i
}

/// `s` without leading and trailing white space.
pub fn trimmed(s: &[char]) -> (r: Vec<char>)
    ensures
        r@ =~= trim(s@),
{
    let a = leading_ws(s);
    let t = slice_of(s, a, s.len());
    let b = trailing_cut(t.as_slice());
    slice_of(t.as_slice(), 0, b)
}

/// `s` without leading white space.
pub fn trimmed_start(s: &[char]) -> (r: Vec<char>)
    ensures
        r@ =~= trim_start(s@),
{
    let a = leading_ws(s);
    slice_of(s, a, s.len())
}

/// `s` without trailing white space.
pub fn trimmed_end(s: &[char]) -> (r: Vec<char>)
    ensures
        r@ =~= trim_end(s@),
{
    let b = trailing_cut(s);
    slice_of(s, 0, b)
}

/// Equality of two character slices.
pub fn same(a: &[char], b: &[char]) -> (r: bool)
    ensures
        r == (a@ =~= b@),
{
    if a.len() != b.len() {
        return false;
    }
    let mut i: usize = 0;
    while i < a.len()
        invariant
            a@.len() == b@.len(),
            i <= a@.len(),
            forall|j: int| 0 <= j < i ==> a@[j] == b@[j],
        decreases a.len() - i,
    {
        if a[i] != b[i] {
            return false;
        }
        i += 1;
    }
    true
}

} // verus!

verus! {

/// The character sequences held by a vector of character vectors.
pub open spec fn vv(r: Seq<Vec<char>>) -> Seq<Seq<char>> {
    r.map_values(|v: Vec<char>| v@)
}

proof fn lemma_trim_start_nonws(s: Seq<char>)
    requires
        s.len() > 0,
        !is_ws(s[0]),
    ensures
        trim_start(s) == s,
{
}

proof fn lemma_word_len_stop(s: Seq<char>)
    requires
        s.len() == 0 || is_ws(s[0]),
    ensures
        word_len(s) == 0,
{
}

pub proof fn lemma_trim_start_suffix(s: Seq<char>)
    ensures
        trim_start(s).len() <= s.len(),
        trim_start(s) == s.skip(s.len() - trim_start(s).len()),
        trim_start(s).len() == 0 ==> all_ws(s),
        trim_start(s).len() > 0 ==> !is_ws(trim_start(s)[0]),
    decreases s.len(),
{
    if s.len() > 0 && is_ws(s[0]) {
        lemma_trim_start_suffix(s.drop_first());
        assert(s.drop_first().skip(s.drop_first().len() - trim_start(s).len()) =~= s.skip(s.len() - trim_start(s).len()));
        if trim_start(s).len() == 0 {
            assert forall|i: int| 0 <= i < s.len() implies is_ws(#[trigger] s[i]) by {
                if i > 0 {
                    assert(s[i] == s.drop_first()[i - 1]);
                }
            }
        }
    } else {
        assert(s.skip(0) =~= s);
    }
}

proof fn lemma_trim_start_concat(a: Seq<char>, b: Seq<char>)
    ensures
        all_ws(a) ==> trim_start(a + b) == trim_start(b),
        !all_ws(a) ==> trim_start(a + b) == trim_start(a) + b,
    decreases a.len(),
{
    if a.len() == 0 {
        assert(a + b =~= b);
    } else {
        assert((a + b)[0] == a[0]);
        if is_ws(a[0]) {
            lemma_trim_start_concat(a.drop_first(), b);
            assert((a + b).drop_first() =~= a.drop_first() + b);
            if all_ws(a) {
                assert forall|i: int| 0 <= i < a.drop_first().len() implies is_ws(#[trigger] a.drop_first()[i]) by {
                    assert(a.drop_first()[i] == a[i + 1]);
                }
            } else {
                assert(!all_ws(a.drop_first())) by {
                    if all_ws(a.drop_first()) {
                        assert forall|i: int| 0 <= i < a.len() implies is_ws(#[trigger] a[i]) by {
                            if i > 0 {
                                assert(a[i] == a.drop_first()[i - 1]);
                            }
                        }
                    }
                }
            }
        } else {
            assert(!all_ws(a));
        }
    }
}

proof fn lemma_word_len_concat(a: Seq<char>, b: Seq<char>)
    requires
        b.len() == 0 || is_ws(b[0]),
    ensures
        word_len(a + b) == word_len(a),
        word_len(a) <= a.len(),
    decreases a.len(),
{
    if a.len() == 0 {
        assert(a + b =~= b);
    } else {
        assert((a + b)[0] == a[0]);
        if !is_ws(a[0]) {
            lemma_word_len_concat(a.drop_first(), b);
            assert((a + b).drop_first() =~= a.drop_first() + b);
        }
    }
}

/// The words of `a` followed by text that starts with white space are the
/// words of `a` followed by the words of that text.
pub proof fn lemma_words_concat(a: Seq<char>, b: Seq<char>)
    requires
        b.len() == 0 || is_ws(b[0]),
    ensures
        words(a + b) == words(a) + words(b),
    decreases a.len(),
{
    lemma_trim_start_concat(a, b);
    lemma_trim_start_suffix(a);
    lemma_trim_start_suffix(b);
    lemma_trim_start_suffix(a + b);
    if all_ws(a) {
        assert(trim_start(a).len() == 0) by {
            if trim_start(a).len() > 0 {
                let k = a.len() - trim_start(a).len();
                assert(trim_start(a)[0] == a[k]);
            }
        }
        assert(words(a) == Seq::<Seq<char>>::empty());
        assert(words(a) + words(b) =~= words(b));
    } else {
        let t = trim_start(a);
        assert(t.len() > 0);
        lemma_word_len_concat(t, b);
        let n = word_len(t);
        assert(n > 0);
        assert((t + b).take(n as int) =~= t.take(n as int));
        assert((t + b).skip(n as int) =~= t.skip(n as int) + b);
        lemma_words_concat(t.skip(n as int), b);
        assert(words(a + b) =~= words(a) + words(b));
    }
}

/// The white-space separated words of `s` (`str::split_whitespace`).
pub fn split_words(s: &[char]) -> (r: Vec<Vec<char>>)
    ensures
        vv(r@) =~= words(s@),
{
    let n = s.len();
    let mut r: Vec<Vec<char>> = Vec::new();
    let mut i: usize = 0;
    let mut done = false;
    assert(s@.skip(0) =~= s@);
    while !done
        invariant
            n == s@.len(),
            i <= n,
            words(s@) =~= vv(r@) + (if done { seq![] } else { words(s@.skip(i as int)) }),
        decreases n - i, if done { 0int } else { 1int },
    {
        let mut j = i;
        while j < n && is_whitespace(s[j])
            invariant
                n == s@.len(),
                i <= j <= n,
                trim_start(s@.skip(i as int)) == trim_start(s@.skip(j as int)),
            decreases n - j,
        {
            proof {
                lemma_skip_drop_first(s@, j as int);
            }
            j += 1;
        }
        if j == n {
            proof {
                assert(s@.skip(n as int).len() == 0);
                assert(words(s@.skip(i as int)) =~= seq![]);
                assert(vv(r@) + seq![] =~= vv(r@));
            }
            done = true;
        } else {
            let ghost t = s@.skip(j as int);
            proof {
                lemma_trim_start_nonws(t);
            }
            let mut k = j;
            while k < n && !is_whitespace(s[k])
                invariant
                    n == s@.len(),
                    j <= k <= n,
                    t == s@.skip(j as int),
                    word_len(t) == (k - j) + word_len(s@.skip(k as int)),
                decreases n - k,
            {
                proof {
                    lemma_skip_drop_first(s@, k as int);
                }
                k += 1;
            }
            proof {
                lemma_word_len_stop(s@.skip(k as int));
                assert(t.take((k - j) as int) =~= s@.subrange(j as int, k as int));
                assert(t.skip((k - j) as int) =~= s@.skip(k as int));
            }
            let w = slice_of(s, j, k);
            let ghost old_r = r@;
            r.push(w);
            proof {
                assert(vv(r@) =~= vv(old_r).push(w@));
            }
            i = k;
        }
    }
    r
}

/// The parts joined with `sep` between neighbours.
pub fn join_with(parts: &Vec<Vec<char>>, sep: &[char]) -> (r: Vec<char>)
    ensures
        r@ =~= join(vv(parts@), sep@),
{
    let mut r: Vec<char> = Vec::new();
    let mut i: usize = 0;
    while i < parts.len()
        invariant
            i <= parts@.len(),
            r@ =~= join(vv(parts@).take(i as int), sep@),
        decreases parts.len() - i,
    {
        let ghost before = r@;
        if i > 0 {
            r.extend_from_slice(sep);
        }
        r.extend_from_slice(parts[i].as_slice());
        proof {
            let p = vv(parts@);
            assert(p.take(i + 1).drop_last() =~= p.take(i as int));
            assert(p.take(i + 1).last() == parts@[i as int]@);
            if i == 0 {
                assert(p.take(1).len() == 1);
            }
        }
        i += 1;
    }
    proof {
        assert(vv(parts@).take(parts@.len() as int) =~= vv(parts@));
    }
    r
}

proof fn lemma_find_char_skip(s: Seq<char>, c: char, i: int)
    requires
        0 <= i <= s.len(),
        forall|j: int| 0 <= j < i ==> s[j] != c,
    ensures
        find_char(s, c) == match find_char(s.skip(i), c) {
            Some(k) => Some(k + i as nat),
            None => None::<nat>,
        },
    decreases i,
{
    if i > 0 {
        lemma_find_char_skip(s.drop_first(), c, i - 1);
        assert(s.drop_first().skip(i - 1) =~= s.skip(i));
    } else {
        assert(s.skip(0) =~= s);
    }
}

/// Index of the first occurrence of `c` in `s`.
pub fn find_ch(s: &[char], c: char) -> (r: Option<usize>)
    ensures
        r matches Some(k) ==> find_char(s@, c) == Some(k as nat) && k < s@.len(),
        r is None ==> find_char(s@, c) is None,
{
    let n = s.len();
    let mut i: usize = 0;
    while i < n
        invariant
            n == s@.len(),
            i <= n,
            forall|j: int| 0 <= j < i ==> s@[j] != c,
        decreases n - i,
    {
        if s[i] == c {
            proof {
                lemma_find_char_skip(s@, c, i as int);
            }
            return Some(i);
        }
        i += 1;
    }
    proof {
        lemma_find_char_skip(s@, c, n as int);
    }
    None
}

proof fn lemma_find_skip(s: Seq<char>, p: Seq<char>, i: int)
    requires
        0 <= i <= s.len(),
        forall|j: int| 0 <= j < i ==> !starts_with(#[trigger] s.skip(j), p),
    ensures
        find(s, p) == match find(s.skip(i), p) {
            Some(k) => Some(k + i as nat),
            None => None::<nat>,
        },
    decreases i,
{
    if i > 0 {
        assert(s.skip(0) =~= s);
        assert forall|j: int| 0 <= j < i - 1 implies !starts_with(#[trigger] s.drop_first().skip(j), p) by {
            assert(s.drop_first().skip(j) =~= s.skip(j + 1));
        }
        lemma_find_skip(s.drop_first(), p, i - 1);
        assert(s.drop_first().skip(i - 1) =~= s.skip(i));
    } else {
        assert(s.skip(0) =~= s);
    }
}

proof fn lemma_find_none_past(s: Seq<char>, p: Seq<char>)
    requires
        p.len() > s.len(),
    ensures
        find(s, p) is None,
    decreases s.len(),
{
    if s.len() > 0 {
        lemma_find_none_past(s.drop_first(), p);
    }
}

/// Whether `p` occurs in `s` at position `i`.
pub fn occurs_at(s: &[char], p: &[char], i: usize) -> (b: bool)
    requires
        i <= s@.len(),
    ensures
        b == starts_with(s@.skip(i as int), p@),
{
    let n = s.len();
    if p.len() > n - i {
        return false;
    }
    let mut j: usize = 0;
    while j < p.len()
        invariant
            n == s@.len(),
            i + p@.len() <= n,
            j <= p@.len(),
            forall|t: int| 0 <= t < j ==> s@[i + t] == p@[t],
        decreases p.len() - j,
    {
        if s[i + j] != p[j] {
            assert(s@.skip(i as int).subrange(0, p@.len() as int)[j as int] != p@[j as int]);
            return false;
        }
        j += 1;
    }
    assert(s@.skip(i as int).subrange(0, p@.len() as int) =~= p@);
    true
}

/// Index of the first occurrence of `p` in `s` (`str::find`).
pub fn find_seq(s: &[char], p: &[char]) -> (r: Option<usize>)
    ensures
        r matches Some(k) ==> find(s@, p@) == Some(k as nat) && k + p@.len() <= s@.len(),
        r is None ==> find(s@, p@) is None,
{
    let n = s.len();
    let mut i: usize = 0;
    while i <= n
        invariant
            n == s@.len(),
            i <= n,
            forall|j: int| 0 <= j < i ==> !starts_with(#[trigger] s@.skip(j), p@),
        decreases n + 1 - i,
    {
        if occurs_at(s, p, i) {
            proof {
                lemma_find_skip(s@, p@, i as int);
            }
            return Some(i);
        }
        if i == n {
            proof {
                lemma_find_skip(s@, p@, n as int);
                assert(s@.skip(n as int).len() == 0);
            }
            return None;
        }
        i += 1;
    }
    None
}

/// The pieces of `s` between occurrences of `c` (`str::split`).
pub fn split_on(s: &[char], c: char) -> (r: Vec<Vec<char>>)
    ensures
        vv(r@) =~= split_char(s@, c),
        r@.len() >= 1,
{
    let n = s.len();
    let mut r: Vec<Vec<char>> = Vec::new();
    let mut start: usize = 0;
    let mut i: usize = 0;
    assert(s@.skip(0) =~= s@);
    while i < n
        invariant
            n == s@.len(),
            start <= i <= n,
            forall|j: int| start <= j < i ==> s@[j] != c,
            split_char(s@, c) =~= vv(r@) + split_char(s@.skip(start as int), c),
        decreases n - i,
    {
        if s[i] == c {
            let ghost t = s@.skip(start as int);
            proof {
                assert forall|j: int| 0 <= j < i - start implies t[j] != c by {
                    assert(t[j] == s@[start + j]);
                }
                lemma_find_char_skip(t, c, (i - start) as int);
                assert(t.skip((i - start) as int)[0] == c);
                assert(find_char(t.skip((i - start) as int), c) == Some(0nat));
                assert(t.take((i - start) as int) =~= s@.subrange(start as int, i as int));
                assert(t.skip((i - start) as int + 1) =~= s@.skip(i + 1));
            }
            let piece = slice_of(s, start, i);
            let ghost old_r = r@;
            r.push(piece);
            proof {
                assert(vv(r@) =~= vv(old_r).push(piece@));
            }
            start = i + 1;
        }
        i += 1;
    }
    let ghost t = s@.skip(start as int);
    proof {
        assert forall|j: int| 0 <= j < t.len() implies t[j] != c by {
            assert(t[j] == s@[start + j]);
        }
        lemma_find_char_skip(t, c, t.len() as int);
        assert(t.skip(t.len() as int).len() == 0);
    }
    let last = slice_of(s, start, n);
    let ghost old_r = r@;
    r.push(last);
    proof {
        assert(vv(r@) =~= vv(old_r).push(last@));
    }
    r
}

/// The lines of `s` (`str::lines`).
pub fn split_lines(s: &[char]) -> (r: Vec<Vec<char>>)
    ensures
        vv(r@) =~= lines(s@),
{
    let n = s.len();
    let mut r: Vec<Vec<char>> = Vec::new();
    let mut start: usize = 0;
    let mut i: usize = 0;
    assert(s@.skip(0) =~= s@);
    while i < n
        invariant
            n == s@.len(),
            start <= i <= n,
            forall|j: int| start <= j < i ==> s@[j] != '\n',
            lines(s@) =~= vv(r@) + lines(s@.skip(start as int)),
        decreases n - i,
    {
        if s[i] == '\n' {
            let ghost t = s@.skip(start as int);
            proof {
                assert forall|j: int| 0 <= j < i - start implies t[j] != '\n' by {
                    assert(t[j] == s@[start + j]);
                }
                lemma_find_char_skip(t, '\n', (i - start) as int);
                assert(t.skip((i - start) as int)[0] == '\n');
                assert(find_char(t.skip((i - start) as int), '\n') == Some(0nat));
                assert(t.take((i - start) as int) =~= s@.subrange(start as int, i as int));
                assert(t.skip((i - start) as int + 1) =~= s@.skip(i + 1));
            }
            let mut end = i;
            if end > start && s[end - 1] == '\r' {
                end = end - 1;
            }
            let piece = slice_of(s, start, end);
            let ghost old_r = r@;
            r.push(piece);
            proof {
                assert(piece@ =~= strip_cr(s@.subrange(start as int, i as int)));
                assert(vv(r@) =~= vv(old_r).push(piece@));
            }
            start = i + 1;
        }
        i += 1;
    }
    let ghost t = s@.skip(start as int);
    if start < n {
        proof {
            assert forall|j: int| 0 <= j < t.len() implies t[j] != '\n' by {
                assert(t[j] == s@[start + j]);
            }
            lemma_find_char_skip(t, '\n', t.len() as int);
            assert(t.skip(t.len() as int).len() == 0);
        }
        let last = slice_of(s, start, n);
        let ghost old_r = r@;
        r.push(last);
        proof {
            assert(vv(r@) =~= vv(old_r).push(last@));
        }
    } else {
        assert(t.len() == 0);
        assert(vv(r@) + seq![] =~= vv(r@));
    }
    r
}

/// ASCII lower-casing of one character.
pub fn lower_char(c: char) -> (r: char)
    ensures
        r == lower(c),
{
    if 'A' <= c && c <= 'Z' {
        let u = ((c as u32) + 32) as u8;
        u as char
    } else {
        c
    }
}

} // verus!


verus! {

/// Strings made of the character sequences of `v`.
pub fn strings_of(v: &Vec<Vec<char>>) -> (r: Vec<String>)
    ensures
        crate::model::strings_view(r@) =~= vv(v@),
{
    let mut r: Vec<String> = Vec::new();
    let mut i: usize = 0;
    while i < v.len()
        invariant
            i <= v@.len(),
            crate::model::strings_view(r@) =~= vv(v@).take(i as int),
        decreases v.len() - i,
    {
        let s = string_of(v[i].as_slice());
        let ghost old_r = r@;
        r.push(s);
        proof {
            assert(crate::model::strings_view(r@) =~= crate::model::strings_view(old_r).push(s@));
            assert(vv(v@).take(i + 1) =~= vv(v@).take(i as int).push(v@[i as int]@));
        }
        i += 1;
    }
    assert(vv(v@).take(v@.len() as int) =~= vv(v@));
    r
}

/// A string made of the characters of `o`, if any.
pub fn opt_string_of(o: &Option<Vec<char>>) -> (r: Option<String>)
    ensures
        crate::model::opt_view(r) == match o {
            Some(v) => Some(v@),
            None => None::<Seq<char>>,
        },
{
    match o {
        Some(v) => Some(string_of(v.as_slice())),
        None => None,
    }
}

/// Whether `x` is one of the sequences in `v`.
pub fn contains_seq(v: &Vec<Vec<char>>, x: &[char]) -> (b: bool)
    ensures
        b == vv(v@).contains(x@),
{
    let mut i: usize = 0;
    while i < v.len()
        invariant
            i <= v@.len(),
            forall|j: int| 0 <= j < i ==> vv(v@)[j] != x@,
        decreases v.len() - i,
    {
        if same(v[i].as_slice(), x) {
            assert(vv(v@)[i as int] == x@);
            return true;
        }
        i += 1;
    }
    false
}

/// The characters of a string, as a vector.
pub fn chars_of_string(s: &String) -> (v: Vec<char>)
    ensures
        v@ == s@,
{
    chars_of(s.as_str())
}

} // verus!

verus! {

/// ASCII lower-casing of a sequence.
pub fn to_lower(s: &[char]) -> (r: Vec<char>)
    ensures
        r@ =~= lower_seq(s@),
{
    let mut r: Vec<char> = Vec::new();
    let mut i: usize = 0;
    while i < s.len()
        invariant
            i <= s@.len(),
            r@ =~= lower_seq(s@.take(i as int)),
        decreases s.len() - i,
    {
        r.push(lower_char(s[i]));
        proof {
            assert(s@.take(i + 1) =~= s@.take(i as int).push(s@[i as int]));
        }
        i += 1;
    }
    assert(s@.take(i as int) =~= s@);
    r
}

/// Case-insensitive ASCII equality.
pub fn eq_ic(a: &[char], b: &[char]) -> (r: bool)
    ensures
        r == eq_ignore_case(a@, b@),
{
    if a.len() != b.len() {
        proof {
            if eq_ignore_case(a@, b@) {
                assert(lower_seq(a@).len() == lower_seq(b@).len());
            }
        }
        return false;
    }
    let mut i: usize = 0;
    while i < a.len()
        invariant
            a@.len() == b@.len(),
            i <= a@.len(),
            forall|j: int| 0 <= j < i ==> lower(a@[j]) == lower(b@[j]),
        decreases a.len() - i,
    {
        if lower_char(a[i]) != lower_char(b[i]) {
            proof {
                if eq_ignore_case(a@, b@) {
                    assert(lower_seq(a@)[i as int] == lower_seq(b@)[i as int]);
                }
            }
            return false;
        }
        i += 1;
    }
    true
}

} // verus!

verus! {

/// The decimal digit character for `d < 10`.
pub open spec fn digit_char(d: nat) -> char {
    ((d + 48) as u8) as char
}

/// The decimal representation of `n` (no leading zeros; `0` for zero).
pub open spec fn decimal(n: nat) -> Seq<char>
    decreases n,
{
    if n < 10 {
        seq![digit_char(n)]
    } else {
        decimal(n / 10).push(digit_char(n % 10))
    }
}

/// The decimal representation of `n`.
pub fn decimal_chars(n: usize) -> (r: Vec<char>)
    ensures
        r@ =~= decimal(n as nat),
    decreases n,
{
    if n < 10 {
        let c = ((n as u8) + 48) as char;
        vec![c]
    } else {
        let mut r = decimal_chars(n / 10);
        let c = (((n % 10) as u8) + 48) as char;
        r.push(c);
        r
    }
}

} // verus!

verus! {

/// `a`, then `b`, then `c`, as one character vector.
pub fn concat3(a: &str, b: &[char], c: &str) -> (r: Vec<char>)
    ensures
        r@ == a@ + b@ + c@,
{
    let mut r = chars_of(a);
    let mut m = slice_of(b, 0, b.len());
    r.append(&mut m);
    let mut t = chars_of(c);
    r.append(&mut t);
    r
}

/// `a` followed by `b`.
pub fn concat2(a: &[char], b: &[char]) -> (r: Vec<char>)
    ensures
        r@ == a@ + b@,
{
    let mut r = slice_of(a, 0, a.len());
    let mut m = slice_of(b, 0, b.len());
    r.append(&mut m);
    r
}

} // verus!

verus! {

/// The concatenation of `f(i, xs[i])` over the elements of `xs`, in order.
pub open spec fn concat_map<A, B>(xs: Seq<A>, f: spec_fn(int, A) -> Seq<B>) -> Seq<B>
    decreases xs.len(),
{
    if xs.len() == 0 {
        seq![]
    } else {
        concat_map(xs.drop_last(), f) + f(xs.len() - 1, xs.last())
    }
}

pub proof fn lemma_concat_map_step<A, B>(xs: Seq<A>, f: spec_fn(int, A) -> Seq<B>, i: int)
    requires
        0 <= i < xs.len(),
    ensures
        concat_map(xs.take(i + 1), f) == concat_map(xs.take(i), f) + f(i, xs[i]),
{
    assert(xs.take(i + 1).drop_last() =~= xs.take(i));
}

/// The character vectors of a list of strings.
pub fn chars_of_strings(v: &[String]) -> (r: Vec<Vec<char>>)
    ensures
        vv(r@) =~= crate::model::strings_view(v@),
{
    let mut r: Vec<Vec<char>> = Vec::new();
    let mut i: usize = 0;
    while i < v.len()
        invariant
            i <= v@.len(),
            vv(r@) =~= crate::model::strings_view(v@).take(i as int),
        decreases v.len() - i,
    {
        let c = chars_of(v[i].as_str());
        let ghost old_r = vv(r@);
        r.push(c);
        proof {
            assert(vv(r@) =~= old_r.push(c@));
            assert(crate::model::strings_view(v@).take(i + 1) =~= crate::model::strings_view(v@).take(i as int).push(v@[i as int]@));
        }
        i += 1;
    }
    assert(crate::model::strings_view(v@).take(i as int) =~= crate::model::strings_view(v@));
    r
}

/// `n` spaces.
pub open spec fn spaces(n: nat) -> Seq<char> {
    Seq::new(n, |i: int| ' ')
}

/// `s` padded with spaces on the right to `w` characters (`format!("{:w$}", s)`).
pub open spec fn pad_right(s: Seq<char>, w: nat) -> Seq<char> {
    if s.len() >= w { s } else { s + spaces((w - s.len()) as nat) }
}

pub fn space_chars(n: usize) -> (r: Vec<char>)
    ensures
        r@ == spaces(n as nat),
{
    let mut r: Vec<char> = Vec::new();
    let mut i: usize = 0;
    while i < n
        invariant
            i <= n,
            r@ =~= spaces(i as nat),
        decreases n - i,
    {
        r.push(' ');
        i += 1;
    }
    r
}

pub fn padded(s: &[char], w: usize) -> (r: Vec<char>)
    ensures
        r@ == pad_right(s@, w as nat),
{
    if s.len() >= w {
        slice_of(s, 0, s.len())
    } else {
        concat2(s, space_chars(w - s.len()).as_slice())
    }
}

/// Decimal text of an integer, with a leading `-` when negative.
pub open spec fn int_text(x: int) -> Seq<char> {
    if x < 0 { seq!['-'] + decimal((-x) as nat) } else { decimal(x as nat) }
}

pub fn i32_chars(x: i32) -> (r: Vec<char>)
    ensures
        r@ == int_text(x as int),
{
    if x < 0 {
        let m: i64 = -(x as i64);
        let d = decimal_chars(m as usize);
        concat2(vec!['-'].as_slice(), d.as_slice())
    } else {
        decimal_chars(x as usize)
    }
}

} // verus!

verus! {

/// A copy of `v`.
pub fn copy_chars(v: &[char]) -> (r: Vec<char>)
    ensures
        r@ == v@,
{
    let r = slice_of(v, 0, v.len());
    assert(r@ =~= v@);
    r
}

} // verus!

verus! {

/// Where `find` finds `pat`, all of `pat` fits in `s`.
pub proof fn lemma_find_bound(s: Seq<char>, pat: Seq<char>)
    ensures
        find(s, pat) matches Some(k) ==> k + pat.len() <= s.len(),
    decreases s.len(),
{
    if !starts_with(s, pat) && s.len() > 0 {
        lemma_find_bound(s.drop_first(), pat);
    }
}

} // verus!

//! Character-sequence helpers: the string operations of the library,
//! stated over `Seq<char>` and proved by loops over `Vec<char>`.
use vstd::prelude::*;

verus! {

/// Appends one character to a `String` (`String::push`).
#[verifier::external_body]
pub(crate) fn string_push(s: &mut String, c: char)
    ensures
        final(s)@ == old(s)@.push(c),
{
    s.push(c);
}

/// The characters of `s`, in order.
pub fn chars_of(s: &str) -> (v: Vec<char>)
    ensures
        v@ == s@,
{
    let mut v: Vec<char> = Vec::new();
    for c in it: s.chars()
        invariant
            v@ == it.seq().take(it.index()),
    {
        v.push(c);
    }
    v
}

/// A `String` holding exactly the characters of `v`.
pub fn string_from(v: &Vec<char>) -> (s: String)
    ensures
        s@ == v@,
{
    let mut s = String::new();
    let mut i: usize = 0;
    while i < v.len()
        invariant
            i <= v.len(),
            s@ == v@.take(i as int),
        decreases v.len() - i,
    {
        string_push(&mut s, v[i]);
        assert(v@.take(i + 1) == v@.take(i as int).push(v@[i as int]));
        i = i + 1;
    }
    assert(v@.take(v.len() as int) == v@);
    s
}

} // verus!

verus! {

/// The pieces of `s` between occurrences of `sep`, as `str::split` with a
/// `char` pattern yields them: one more piece than there are separators.
pub open spec fn split_char(s: Seq<char>, sep: char) -> Seq<Seq<char>>
    decreases s.len(),
{
    if s.len() == 0 {
        seq![Seq::<char>::empty()]
    } else {
        let init = split_char(s.drop_last(), sep);
        if s.last() == sep {
            init.push(Seq::<char>::empty())
        } else {
            init.update(init.len() - 1, init.last().push(s.last()))
        }
    }
}

/// `split_char` always yields at least one piece.
pub proof fn lemma_split_char_nonempty(s: Seq<char>, sep: char)
    ensures
        split_char(s, sep).len() >= 1,
    decreases s.len(),
{
    if s.len() > 0 {
        lemma_split_char_nonempty(s.drop_last(), sep);
    }
}

/// Splitting at a separator that joins two texts splits each of them.
pub proof fn lemma_split_char_concat(a: Seq<char>, b: Seq<char>, sep: char)
    ensures
        split_char(a + seq![sep] + b, sep) == split_char(a, sep) + split_char(b, sep),
    decreases b.len(),
{
    let s = a + seq![sep] + b;
    if b.len() == 0 {
        assert(s.drop_last() =~= a);
        assert(split_char(b, sep) =~= seq![Seq::<char>::empty()]);
        assert(split_char(a, sep).push(Seq::<char>::empty()) =~= split_char(a, sep) + split_char(b, sep));
    } else {
        let b1 = b.drop_last();
        assert(s.drop_last() =~= a + seq![sep] + b1);
        assert(s.last() == b.last());
        lemma_split_char_concat(a, b1, sep);
        lemma_split_char_nonempty(b1, sep);
        let x = split_char(a, sep);
        let y = split_char(b1, sep);
        if b.last() == sep {
            assert((x + y).push(Seq::<char>::empty()) =~= x + y.push(Seq::<char>::empty()));
        } else {
            let xy = x + y;
            assert(xy.last() == y.last());
            assert(xy.update(xy.len() - 1, xy.last().push(b.last())) =~= x + y.update(
                y.len() - 1,
                y.last().push(b.last()),
            ));
        }
    }
}

/// A text without the separator is a single piece.
pub proof fn lemma_split_char_whole(b: Seq<char>, sep: char)
    requires
        !b.contains(sep),
    ensures
        split_char(b, sep) == seq![b],
    decreases b.len(),
{
    if b.len() == 0 {
        assert(b =~= Seq::<char>::empty());
        assert(split_char(b, sep) =~= seq![b]);
    } else {
        let b1 = b.drop_last();
        assert(!b1.contains(sep)) by {
            if b1.contains(sep) {
                let i = choose|i: int| 0 <= i < b1.len() && b1[i] == sep;
                assert(b[i] == sep);
            }
        }
        assert(b.last() != sep) by {
            assert(b[b.len() - 1] == b.last());
        }
        lemma_split_char_whole(b1, sep);
        assert(b1.push(b.last()) =~= b);
        assert(seq![b1].update(0, b1.push(b.last())) =~= seq![b]);
    }
}

/// No piece of a split holds the separator.
pub proof fn lemma_split_char_pieces(s: Seq<char>, sep: char)
    ensures
        forall|i: int| 0 <= i < split_char(s, sep).len() ==> !(#[trigger] split_char(s, sep)[i]).contains(sep),
    decreases s.len(),
{
    if s.len() > 0 {
        let init = split_char(s.drop_last(), sep);
        lemma_split_char_pieces(s.drop_last(), sep);
        lemma_split_char_nonempty(s.drop_last(), sep);
        if s.last() == sep {
            assert forall|i: int| 0 <= i < split_char(s, sep).len() implies !(#[trigger] split_char(s, sep)[i]).contains(sep) by {
                if i < init.len() {
                    assert(split_char(s, sep)[i] == init[i]);
                } else {
                    assert(split_char(s, sep)[i] =~= Seq::<char>::empty());
                }
            }
        } else {
            let k = init.len() - 1;
            assert forall|i: int| 0 <= i < split_char(s, sep).len() implies !(#[trigger] split_char(s, sep)[i]).contains(sep) by {
                if i < k {
                    assert(split_char(s, sep)[i] == init[i]);
                } else {
                    let p = init[k].push(s.last());
                    assert(split_char(s, sep)[i] == p);
                    assert(!init[k].contains(sep));
                    if p.contains(sep) {
                        let j = choose|j: int| 0 <= j < p.len() && p[j] == sep;
                        if j < init[k].len() {
                            assert(init[k][j] == sep);
                        }
                    }
                }
            }
        }
    }
}

/// Splitting pieces joined with a separator that none of them holds gives
/// the pieces back.
pub proof fn lemma_split_join(ps: Seq<Seq<char>>, sep: char)
    requires
        ps.len() >= 1,
        forall|i: int| 0 <= i < ps.len() ==> !(#[trigger] ps[i]).contains(sep),
    ensures
        split_char(join_with(ps, seq![sep]), sep) == ps,
    decreases ps.len(),
{
    if ps.len() == 1 {
        lemma_split_char_whole(ps[0], sep);
        assert(seq![ps[0]] =~= ps);
    } else {
        let init = ps.drop_last();
        assert forall|i: int| 0 <= i < init.len() implies !(#[trigger] init[i]).contains(sep) by {
            assert(init[i] == ps[i]);
        }
        lemma_split_join(init, sep);
        assert(!ps.last().contains(sep)) by {
            assert(ps[ps.len() - 1] == ps.last());
        }
        lemma_split_char_whole(ps.last(), sep);
        lemma_split_char_concat(join_with(init, seq![sep]), ps.last(), sep);
        assert(init + seq![ps.last()] =~= ps);
    }
}

/// The character sequences held by a vector of character vectors.
pub open spec fn seqs_of(v: Seq<Vec<char>>) -> Seq<Seq<char>> {
    v.map_values(|x: Vec<char>| x@)
}

/// Splits `s` at every `sep` (`str::split` with a `char` pattern).
pub fn split_on(s: &Vec<char>, sep: char) -> (parts: Vec<Vec<char>>)
    ensures
        seqs_of(parts@) == split_char(s@, sep),
{
    let mut parts: Vec<Vec<char>> = Vec::new();
    let mut cur: Vec<char> = Vec::new();
    let mut i: usize = 0;
    while i < s.len()
        invariant
            i <= s.len(),
            seqs_of(parts@).push(cur@) == split_char(s@.take(i as int), sep),
        decreases s.len() - i,
    {
        let ghost before = s@.take(i as int);
        let ghost old_parts = seqs_of(parts@);
        let ghost old_cur = cur@;
        assert(s@.take(i + 1).drop_last() == before);
        assert(s@.take(i + 1).last() == s@[i as int]);
        let c = s[i];
        if c == sep {
            let done = cur;
            parts.push(done);
            cur = Vec::new();
            assert(seqs_of(parts@) =~= old_parts.push(old_cur));
        } else {
            cur.push(c);
            assert(seqs_of(parts@).push(cur@) =~= old_parts.push(old_cur).update(
                old_parts.len() as int,
                old_cur.push(c),
            ));
        }
        i = i + 1;
    }
    assert(s@.take(s.len() as int) == s@);
    let ghost old_parts = seqs_of(parts@);
    let ghost old_cur = cur@;
    parts.push(cur);
    assert(seqs_of(parts@) =~= old_parts.push(old_cur));
    parts
}


/// Appends every character of `src` to `dst`.
pub fn push_all(dst: &mut Vec<char>, src: &Vec<char>)
    ensures
        final(dst)@ == old(dst)@ + src@,
{
    let ghost start = dst@;
    let mut i: usize = 0;
    while i < src.len()
        invariant
            i <= src.len(),
            dst@ == start + src@.take(i as int),
        decreases src.len() - i,
    {
        dst.push(src[i]);
        assert(src@.take(i + 1) == src@.take(i as int).push(src@[i as int]));
        i = i + 1;
    }
    assert(src@.take(src.len() as int) == src@);
}

/// `parts` glued together with `sep` between neighbours (`join`).
pub open spec fn join_with(parts: Seq<Seq<char>>, sep: Seq<char>) -> Seq<char>
    decreases parts.len(),
{
    if parts.len() == 0 {
        Seq::<char>::empty()
    } else if parts.len() == 1 {
        parts[0]
    } else {
        join_with(parts.drop_last(), sep) + sep + parts.last()
    }
}

/// Joins `parts` with `sep` between neighbours.
pub fn join_on(parts: &Vec<Vec<char>>, sep: &Vec<char>) -> (r: Vec<char>)
    ensures
        r@ == join_with(seqs_of(parts@), sep@),
{
    let mut r: Vec<char> = Vec::new();
    let mut i: usize = 0;
    while i < parts.len()
        invariant
            i <= parts.len(),
            r@ == join_with(seqs_of(parts@).take(i as int), sep@),
        decreases parts.len() - i,
    {
        let ghost done = seqs_of(parts@).take(i as int);
        let ghost next = seqs_of(parts@).take(i + 1);
        assert(next.drop_last() =~= done);
        assert(next.last() == parts@[i as int]@);
        if i > 0 {
            push_all(&mut r, sep);
        } else {
            assert(next.len() == 1);
            assert(next[0] == parts@[0]@);
        }
        push_all(&mut r, &parts[i]);
        i = i + 1;
    }
    assert(seqs_of(parts@).take(parts.len() as int) =~= seqs_of(parts@));
    r
}

/// Appends the characters of `s` to `dst`.
pub fn append_str(dst: &mut Vec<char>, s: &str)
    ensures
        final(dst)@ == old(dst)@ + s@,
{
    let cs = chars_of(s);
    push_all(dst, &cs);
}

/// `p` is a prefix of `s`.
pub open spec fn has_prefix(s: Seq<char>, p: Seq<char>) -> bool {
    p.len() <= s.len() && s.take(p.len() as int) == p
}

/// `t` occurs in `s` starting at position `i`.
pub open spec fn occurs_at(s: Seq<char>, t: Seq<char>, i: int) -> bool {
    0 <= i && i + t.len() <= s.len() && s.subrange(i, i + t.len()) == t
}

/// `t` occurs somewhere in `s` (`str::contains`).
pub open spec fn has_infix(s: Seq<char>, t: Seq<char>) -> bool {
    exists|i: int| occurs_at(s, t, i)
}

/// Whether `t` occurs in `s` at position `i`.
pub fn matches_at(s: &Vec<char>, t: &Vec<char>, i: usize) -> (b: bool)
    ensures
        b == occurs_at(s@, t@, i as int),
{
    if i > s.len() || t.len() > s.len() - i {
        return false;
    }
    let mut k: usize = 0;
    while k < t.len()
        invariant
            i + t.len() <= s.len(),
            k <= t.len(),
            forall|j: int| 0 <= j < k ==> s@[i + j] == t@[j],
        decreases t.len() - k,
    {
        if s[i + k] != t[k] {
            assert(s@.subrange(i as int, i + t.len())[k as int] != t@[k as int]);
            return false;
        }
        k = k + 1;
    }
    assert(s@.subrange(i as int, i + t.len()) =~= t@);
    true
}

/// Whether `p` is a prefix of `s` (`str::starts_with`).
pub fn starts_with(s: &Vec<char>, p: &Vec<char>) -> (b: bool)
    ensures
        b == has_prefix(s@, p@),
{
    let b = matches_at(s, p, 0);
    assert(s@.subrange(0, p@.len() as int) == s@.take(p@.len() as int));
    b
}

/// Whether `t` occurs in `s` (`str::contains`).
pub fn contains(s: &Vec<char>, t: &Vec<char>) -> (b: bool)
    ensures
        b == has_infix(s@, t@),
{
    if t.len() > s.len() {
        return false;
    }
    let last = s.len() - t.len();
    let mut i: usize = 0;
    loop
        invariant
            t.len() <= s.len(),
            last == s.len() - t.len(),
            i <= last,
            forall|j: int| 0 <= j < i ==> !occurs_at(s@, t@, j),
        decreases last - i,
    {
        if matches_at(s, t, i) {
            return true;
        }
        if i == last {
            assert forall|j: int| !occurs_at(s@, t@, j) by {
                if j > last as int {
                    assert(!(j + t@.len() <= s@.len()));
                }
            }
            return false;
        }
        i = i + 1;
    }
}

/// Every occurrence of the non-empty `from`, found left to right without
/// overlap, replaced by `to` (`str::replace`).
pub open spec fn replace_all(s: Seq<char>, from: Seq<char>, to: Seq<char>) -> Seq<char>
    decreases s.len(),
{
    if from.len() == 0 || s.len() == 0 {
        s
    } else if has_prefix(s, from) {
        to + replace_all(s.skip(from.len() as int), from, to)
    } else {
        seq![s[0]] + replace_all(s.skip(1), from, to)
    }
}

/// Replaces every occurrence of `from` in `s` by `to`.
pub fn replace_chars(s: &Vec<char>, from: &Vec<char>, to: &Vec<char>) -> (r: Vec<char>)
    requires
        from.len() > 0,
    ensures
        r@ == replace_all(s@, from@, to@),
{
    let mut r: Vec<char> = Vec::new();
    let mut i: usize = 0;
    assert(s@.skip(0) =~= s@);
    assert(r@ + replace_all(s@, from@, to@) =~= replace_all(s@, from@, to@));
    while i < s.len()
        invariant
            from.len() > 0,
            i <= s.len(),
            r@ + replace_all(s@.skip(i as int), from@, to@) == replace_all(s@, from@, to@),
        decreases s.len() - i,
    {
        let ghost rest = s@.skip(i as int);
        if matches_at(s, from, i) {
            assert(rest.take(from.len() as int) =~= s@.subrange(i as int, i + from.len()));
            assert(rest.skip(from.len() as int) =~= s@.skip(i + from.len()));
            push_all(&mut r, to);
            i = i + from.len();
            assert(r@ + replace_all(s@.skip(i as int), from@, to@) =~= replace_all(s@, from@, to@));
        } else {
            assert(!has_prefix(rest, from@)) by {
                if has_prefix(rest, from@) {
                    assert(rest.take(from.len() as int) =~= s@.subrange(i as int, i + from.len()));
                }
            }
            assert(rest.skip(1) =~= s@.skip(i + 1));
            assert(rest[0] == s@[i as int]);
            r.push(s[i]);
            i = i + 1;
            assert(r@ + replace_all(s@.skip(i as int), from@, to@) =~= replace_all(s@, from@, to@));
        }
    }
    assert(s@.skip(s.len() as int) =~= Seq::<char>::empty());
    assert(r@ + Seq::<char>::empty() =~= r@);
    r
}

/// The character of a decimal digit.
pub open spec fn digit_char(d: nat) -> char {
    if d == 0 { '0' }
    else if d == 1 { '1' }
    else if d == 2 { '2' }
    else if d == 3 { '3' }
    else if d == 4 { '4' }
    else if d == 5 { '5' }
    else if d == 6 { '6' }
    else if d == 7 { '7' }
    else if d == 8 { '8' }
    else { '9' }
}

/// The decimal representation of `n`, without sign or leading zeros (`{}`).
pub open spec fn decimal(n: nat) -> Seq<char>
    decreases n,
{
    if n < 10 {
        seq![digit_char(n)]
    } else {
        decimal(n / 10).push(digit_char(n % 10))
    }
}

fn digit(d: u64) -> (c: char)
    requires
        d < 10,
    ensures
        c == digit_char(d as nat),
{
    if d == 0 { '0' }
    else if d == 1 { '1' }
    else if d == 2 { '2' }
    else if d == 3 { '3' }
    else if d == 4 { '4' }
    else if d == 5 { '5' }
    else if d == 6 { '6' }
    else if d == 7 { '7' }
    else if d == 8 { '8' }
    else { '9' }
}

/// The decimal digits of `n`.
pub fn decimal_of(n: u64) -> (r: Vec<char>)
    ensures
        r@ == decimal(n as nat),
    decreases n,
{
    if n < 10 {
        let mut r: Vec<char> = Vec::new();
        r.push(digit(n));
        assert(r@ =~= seq![digit_char(n as nat)]);
        r
    } else {
        let mut r = decimal_of(n / 10);
        r.push(digit(n % 10));
        r
    }
}


/// Whether two character vectors hold the same characters.
pub fn same_chars(a: &Vec<char>, b: &Vec<char>) -> (r: bool)
    ensures
        r == (a@ == b@),
{
    if a.len() != b.len() {
        return false;
    }
    let mut i: usize = 0;
    while i < a.len()
        invariant
            a.len() == b.len(),
            i <= a.len(),
            forall|j: int| 0 <= j < i ==> a@[j] == b@[j],
        decreases a.len() - i,
    {
        if a[i] != b[i] {
            return false;
        }
        i = i + 1;
    }
    assert(a@ =~= b@);
    true
}

/// The last piece of `s` split at `sep`: everything after the last `sep`,
/// or all of `s` when it holds none (`split(sep).next_back()`).
pub fn last_piece(s: &str, sep: char) -> (r: Vec<char>)
    ensures
        r@ == split_char(s@, sep).last(),
{
    let chars = chars_of(s);
    let mut parts = split_on(&chars, sep);
    proof {
        lemma_split_char_nonempty(s@, sep);
    }
    let last = parts.pop().unwrap();
    last
}

/// The text of `s` before the first occurrence of `t`, or all of `s` when
/// `t` does not occur.
pub open spec fn before_first(s: Seq<char>, t: Seq<char>) -> Seq<char>
    decreases s.len(),
{
    if s.len() == 0 || has_prefix(s, t) {
        Seq::<char>::empty()
    } else {
        seq![s[0]] + before_first(s.skip(1), t)
    }
}

/// The characters of `s` from position `start` up to the first occurrence
/// of `t` at or after `start`.
pub fn before_first_from(s: &Vec<char>, start: usize, t: &Vec<char>) -> (r: Vec<char>)
    requires
        start <= s.len(),
    ensures
        r@ == before_first(s@.skip(start as int), t@),
{
    let mut r: Vec<char> = Vec::new();
    let mut i: usize = start;
    assert(r@ + before_first(s@.skip(i as int), t@) =~= before_first(s@.skip(start as int), t@));
    while i < s.len()
        invariant
            start <= i <= s.len(),
            r@ + before_first(s@.skip(i as int), t@) == before_first(s@.skip(start as int), t@),
        decreases s.len() - i,
    {
        let ghost rest = s@.skip(i as int);
        if matches_at(s, t, i) {
            assert(rest.take(t@.len() as int) =~= s@.subrange(i as int, i + t@.len()));
            assert(r@ + Seq::<char>::empty() =~= r@);
            return r;
        }
        assert(!has_prefix(rest, t@)) by {
            if has_prefix(rest, t@) {
                assert(rest.take(t@.len() as int) =~= s@.subrange(i as int, i + t@.len()));
            }
        }
        assert(rest.skip(1) =~= s@.skip(i + 1));
        r.push(s[i]);
        i = i + 1;
        assert(r@ + before_first(s@.skip(i as int), t@) =~= before_first(
            s@.skip(start as int),
            t@,
        ));
    }
    assert(s@.skip(s.len() as int) =~= Seq::<char>::empty());
    assert(r@ + Seq::<char>::empty() =~= r@);
    r
}


/// An ASCII decimal digit.
pub open spec fn is_digit(c: char) -> bool {
    '0' <= c && c <= '9'
}

/// The value of an ASCII decimal digit.
pub open spec fn digit_value(c: char) -> nat {
    ((c as int) - ('0' as int)) as nat
}

/// The value of a sequence of decimal digits, most significant first.
pub open spec fn digits_value(d: Seq<char>) -> nat
    decreases d.len(),
{
    if d.len() == 0 {
        0
    } else {
        digits_value(d.drop_last()) * 10 + digit_value(d.last())
    }
}

/// The digits of a number written with an optional leading `+`.
pub open spec fn unsigned_digits(s: Seq<char>) -> Seq<char> {
    if s.len() > 0 && s[0] == '+' {
        s.skip(1)
    } else {
        s
    }
}

/// Every character of `d` is an ASCII decimal digit.
pub open spec fn all_digits(d: Seq<char>) -> bool {
    forall|i: int| 0 <= i < d.len() ==> is_digit(#[trigger] d[i])
}

/// What `str::parse::<u32>` accepts and yields: an optional `+`, then one or
/// more ASCII digits whose value fits in a `u32`.
pub open spec fn parse_u32(s: Seq<char>) -> Option<nat> {
    let d = unsigned_digits(s);
    if d.len() > 0 && all_digits(d) && digits_value(d) <= u32::MAX {
        Some(digits_value(d))
    } else {
        None
    }
}

/// Parses a decimal `u32` as `str::parse::<u32>` does.
pub fn parse_u32_chars(s: &Vec<char>) -> (r: Option<u32>)
    ensures
        match parse_u32(s@) {
            Some(n) => r == Some(n as u32),
            None => r is None,
        },
{
    let start: usize = if s.len() > 0 && s[0] == '+' { 1 } else { 0 };
    let ghost d = unsigned_digits(s@);
    assert(d =~= s@.skip(start as int));
    if start >= s.len() {
        return None;
    }
    let mut acc: u64 = 0;
    let mut over = false;
    let mut i: usize = start;
    assert(d.take(0) =~= Seq::<char>::empty());
    while i < s.len()
        invariant
            start <= i <= s.len(),
            d == s@.skip(start as int),
            d == unsigned_digits(s@),
            forall|j: int| 0 <= j < i - start ==> is_digit(#[trigger] d[j]),
            over ==> digits_value(d.take(i - start)) > u32::MAX,
            !over ==> acc == digits_value(d.take(i - start)) && acc <= u32::MAX,
        decreases s.len() - i,
    {
        let c = s[i];
        assert(d[i - start] == c);
        if !('0' <= c && c <= '9') {
            assert(!is_digit(d[i - start]));
            return None;
        }
        let dv = (c as u64) - ('0' as u64);
        assert(d.take(i - start + 1).drop_last() =~= d.take(i - start));
        assert(d.take(i - start + 1).last() == c);
        if !over {
            let next = acc * 10 + dv;
            if next > 4294967295 {
                over = true;
            } else {
                acc = next;
            }
        }
        i = i + 1;
    }
    assert(d.take(d.len() as int) =~= d);
    if over {
        None
    } else {
        Some(acc as u32)
    }
}

} // verus!

verus! {

/// `t` is a suffix of `s`.
pub open spec fn has_suffix(s: Seq<char>, t: Seq<char>) -> bool {
    t.len() <= s.len() && s.skip(s.len() - t.len()) == t
}

/// Whether `t` is a suffix of `s` (`str::ends_with`).
pub fn ends_with(s: &Vec<char>, t: &Vec<char>) -> (b: bool)
    ensures
        b == has_suffix(s@, t@),
{
    if t.len() > s.len() {
        return false;
    }
    let b = matches_at(s, t, s.len() - t.len());
    assert(s@.subrange(s.len() - t.len(), s.len() as int) =~= s@.skip(s.len() - t.len()));
    b
}

/// The view of an optional string.
pub open spec fn opt_view(o: Option<String>) -> Option<Seq<char>> {
    match o {
        Some(s) => Some(s@),
        None => None,
    }
}

/// A copy of an optional string.
pub fn copy_opt(o: &Option<String>) -> (r: Option<String>)
    ensures
        r == *o,
{
    match o {
        Some(s) => Some(s.clone()),
        None => None,
    }
}

} // verus!

verus! {

/// The texts held by a sequence of strings.
pub open spec fn strs_of(v: Seq<String>) -> Seq<Seq<char>> {
    v.map_values(|s: String| s@)
}

/// No text occurs twice.
pub open spec fn no_dups(s: Seq<Seq<char>>) -> bool {
    forall|i: int, j: int| 0 <= i < j < s.len() ==> s[i] != s[j]
}

/// The position of `s` in `v`, if it occurs.
pub fn position_of(v: &Vec<String>, s: &str) -> (k: Option<usize>)
    ensures
        match k {
            Some(k) => k < v.len() && v@[k as int]@ == s@,
            None => !strs_of(v@).contains(s@),
        },
{
    let mut i: usize = 0;
    while i < v.len()
        invariant
            i <= v.len(),
            forall|j: int| 0 <= j < i ==> v@[j]@ != s@,
        decreases v.len() - i,
    {
        if v[i].as_str().to_owned() == s.to_owned() {
            return Some(i);
        }
        i = i + 1;
    }
    assert forall|j: int| 0 <= j < strs_of(v@).len() implies strs_of(v@)[j] != s@ by {
        assert(strs_of(v@)[j] == v@[j]@);
    }
    None
}

/// Adds `s` to `v` unless `v` already holds it.
pub fn insert_unique(v: &mut Vec<String>, s: String)
    ensures
        strs_of(old(v)@).contains(s@) ==> strs_of(final(v)@) == strs_of(old(v)@),
        !strs_of(old(v)@).contains(s@) ==> strs_of(final(v)@) == strs_of(old(v)@).push(s@),
        no_dups(strs_of(old(v)@)) ==> no_dups(strs_of(final(v)@)),
        strs_of(final(v)@).to_set() == strs_of(old(v)@).to_set().insert(s@),
{
    let ghost before = strs_of(v@);
    match position_of(v, s.as_str()) {
        Some(k) => {
            assert(before[k as int] == s@);
            assert(before.to_set().contains(s@));
            assert(before.to_set().insert(s@) =~= before.to_set());
        },
        None => {
            let ghost sv = s@;
            v.push(s);
            assert(strs_of(v@) =~= before.push(sv));
            proof {
                before.lemma_push_to_set_commute(sv);
            }
        },
    }
}

} // verus!

verus! {

/// The texts of `s` other than `t`, in order.
pub open spec fn without_text(s: Seq<Seq<char>>, t: Seq<char>) -> Seq<Seq<char>>
    decreases s.len(),
{
    if s.len() == 0 {
        s
    } else if s.last() == t {
        without_text(s.drop_last(), t)
    } else {
        without_text(s.drop_last(), t).push(s.last())
    }
}

proof fn lemma_without_text(s: Seq<Seq<char>>, t: Seq<char>)
    ensures
        without_text(s, t).to_set() == s.to_set().remove(t),
        no_dups(s) ==> no_dups(without_text(s, t)),
    decreases s.len(),
{
    if s.len() > 0 {
        let init = s.drop_last();
        lemma_without_text(init, t);
        init.lemma_push_to_set_commute(s.last());
        assert(init.push(s.last()) =~= s);
        if s.last() != t {
            without_text(init, t).lemma_push_to_set_commute(s.last());
            assert(without_text(s, t).to_set() =~= s.to_set().remove(t));
            if no_dups(s) {
                assert(no_dups(init)) by {
                    assert forall|i: int, j: int| 0 <= i < j < init.len() implies init[i] != init[j] by {
                        assert(init[i] == s[i] && init[j] == s[j]);
                    }
                }
                let w = without_text(s, t);
                assert forall|i: int, j: int| 0 <= i < j < w.len() implies w[i] != w[j] by {
                    if j == w.len() - 1 {
                        let wi = without_text(init, t)[i];
                        assert(without_text(init, t).to_set().contains(wi));
                        assert(init.to_set().contains(wi));
                        let k = choose|k: int| 0 <= k < init.len() && init[k] == wi;
                        assert(s[k] == wi);
                        assert(s[s.len() - 1] == w[j]);
                    }
                }
            }
        } else {
            assert(without_text(s, t).to_set() =~= s.to_set().remove(t));
            if no_dups(s) {
                assert forall|i: int, j: int| 0 <= i < j < init.len() implies init[i] != init[j] by {
                    assert(init[i] == s[i] && init[j] == s[j]);
                }
            }
        }
    }
}

/// The strings of `v` other than `t`, in order.
pub fn remove_text(v: &Vec<String>, t: &str) -> (r: Vec<String>)
    ensures
        strs_of(r@) == without_text(strs_of(v@), t@),
        strs_of(r@).to_set() == strs_of(v@).to_set().remove(t@),
        no_dups(strs_of(v@)) ==> no_dups(strs_of(r@)),
{
    let ghost sv = strs_of(v@);
    let mut r: Vec<String> = Vec::new();
    let mut i: usize = 0;
    while i < v.len()
        invariant
            i <= v.len(),
            sv == strs_of(v@),
            strs_of(r@) == without_text(sv.take(i as int), t@),
        decreases v.len() - i,
    {
        assert(sv.take(i + 1).drop_last() =~= sv.take(i as int));
        assert(sv.take(i + 1).last() == v@[i as int]@);
        if !(v[i].as_str().to_owned() == t.to_owned()) {
            let ghost prev = strs_of(r@);
            r.push(v[i].clone());
            assert(strs_of(r@) =~= prev.push(v@[i as int]@));
        }
        i = i + 1;
    }
    assert(sv.take(v.len() as int) =~= sv);
    proof {
        lemma_without_text(sv, t@);
    }
    r
}

} // verus!

verus! {

/// The upper-case hexadecimal digit of a value below 16.
pub open spec fn hex_digit(d: int) -> char {
    if d < 10 {
        digit_char(d as nat)
    } else if d == 10 {
        'A'
    } else if d == 11 {
        'B'
    } else if d == 12 {
        'C'
    } else if d == 13 {
        'D'
    } else if d == 14 {
        'E'
    } else {
        'F'
    }
}

/// The bytes written in upper-case hexadecimal, two digits each
/// (`{:X}` of a byte array).
pub open spec fn hex_upper(data: Seq<u8>) -> Seq<char>
    decreases data.len(),
{
    if data.len() == 0 {
        Seq::<char>::empty()
    } else {
        hex_upper(data.drop_last()) + seq![
            hex_digit(data.last() as int / 16),
            hex_digit(data.last() as int % 16),
        ]
    }
}

/// `c` is a digit or one of the letters `A` to `F`.
pub open spec fn is_upper_hex_char(c: char) -> bool {
    ('0' <= c && c <= '9') || ('A' <= c && c <= 'F')
}

/// Bytes in upper-case hexadecimal take two characters each, all of them
/// digits or the letters `A` to `F`.
pub proof fn lemma_hex_upper_shape(data: Seq<u8>)
    ensures
        hex_upper(data).len() == 2 * data.len(),
        forall|i: int| 0 <= i < hex_upper(data).len() ==> is_upper_hex_char(#[trigger] hex_upper(data)[i]),
    decreases data.len(),
{
    if data.len() > 0 {
        lemma_hex_upper_shape(data.drop_last());
        let init = hex_upper(data.drop_last());
        let tail = seq![hex_digit(data.last() as int / 16), hex_digit(data.last() as int % 16)];
        assert forall|i: int| 0 <= i < hex_upper(data).len() implies is_upper_hex_char(#[trigger] hex_upper(data)[i]) by {
            if i < init.len() {
                assert(hex_upper(data)[i] == init[i]);
            } else {
                assert(hex_upper(data)[i] == tail[i - init.len()]);
            }
        }
    }
}

fn hex_digit_exec(d: u8) -> (c: char)
    requires
        d < 16,
    ensures
        c == hex_digit(d as int),
{
    if d < 10 {
        let c = digit(d as u64);
        c
    } else if d == 10 {
        'A'
    } else if d == 11 {
        'B'
    } else if d == 12 {
        'C'
    } else if d == 13 {
        'D'
    } else if d == 14 {
        'E'
    } else {
        'F'
    }
}

/// Writes bytes in upper-case hexadecimal.
pub fn hex_upper_of(data: &Vec<u8>) -> (r: Vec<char>)
    ensures
        r@ == hex_upper(data@),
{
    let mut r: Vec<char> = Vec::new();
    let mut i: usize = 0;
    while i < data.len()
        invariant
            i <= data.len(),
            r@ == hex_upper(data@.take(i as int)),
        decreases data.len() - i,
    {
        assert(data@.take(i + 1).drop_last() =~= data@.take(i as int));
        assert(data@.take(i + 1).last() == data@[i as int]);
        let b = data[i];
        r.push(hex_digit_exec(b / 16));
        r.push(hex_digit_exec(b % 16));
        i = i + 1;
    }
    assert(data@.take(data.len() as int) =~= data@);
    r
}

} // verus!

verus! {

/// `a` comes before or equals `b` in the order of `String`'s `cmp`:
/// character by character by code point (the order of UTF-8 bytes), a
/// prefix first.
pub open spec fn lex_le(a: Seq<char>, b: Seq<char>) -> bool
    decreases a.len(),
{
    if a.len() == 0 {
        true
    } else if b.len() == 0 {
        false
    } else if a[0] != b[0] {
        a[0] < b[0]
    } else {
        lex_le(a.skip(1), b.skip(1))
    }
}

/// `lex_le` is total.
pub proof fn lemma_lex_total(a: Seq<char>, b: Seq<char>)
    ensures
        lex_le(a, b) || lex_le(b, a),
    decreases a.len(),
{
    if a.len() > 0 && b.len() > 0 && a[0] == b[0] {
        lemma_lex_total(a.skip(1), b.skip(1));
    }
}

/// `lex_le` is transitive.
pub proof fn lemma_lex_trans(a: Seq<char>, b: Seq<char>, c: Seq<char>)
    requires
        lex_le(a, b),
        lex_le(b, c),
    ensures
        lex_le(a, c),
    decreases a.len(),
{
    if a.len() > 0 && b.len() > 0 && c.len() > 0 && a[0] == b[0] && b[0] == c[0] {
        lemma_lex_trans(a.skip(1), b.skip(1), c.skip(1));
    }
}

/// Whether `a` comes before or equals `b` (see `lex_le`).
pub fn lex_le_exec(a: &Vec<char>, b: &Vec<char>) -> (r: bool)
    ensures
        r == lex_le(a@, b@),
{
    let mut i: usize = 0;
    assert(a@.skip(0) =~= a@ && b@.skip(0) =~= b@);
    while i < a.len()
        invariant
            i <= a.len(),
            i <= b.len(),
            forall|j: int| 0 <= j < i ==> a@[j] == b@[j],
            lex_le(a@, b@) == lex_le(a@.skip(i as int), b@.skip(i as int)),
        decreases a.len() - i,
    {
        if i >= b.len() {
            return false;
        }
        let x = a[i];
        let y = b[i];
        assert(a@.skip(i as int)[0] == x && b@.skip(i as int)[0] == y);
        if x != y {
            return x < y;
        }
        assert(a@.skip(i as int).skip(1) =~= a@.skip(i + 1));
        assert(b@.skip(i as int).skip(1) =~= b@.skip(i + 1));
        i = i + 1;
    }
    true
}

/// `order` lists each position below `n` exactly once.
pub open spec fn is_permutation(order: Seq<usize>, n: int) -> bool {
    &&& order.len() == n
    &&& forall|k: int| 0 <= k < n ==> #[trigger] order[k] < n
    &&& forall|a: int, b: int| 0 <= a < b < n ==> order[a] != order[b]
}

/// The names taken in `order` come in `lex_le` order, and equal names keep
/// their order in `names` (a stable sort).
pub open spec fn sorts_stably(names: Seq<Seq<char>>, order: Seq<usize>) -> bool {
    &&& forall|a: int, b: int|
        0 <= a < b < order.len() ==> lex_le(names[order[a] as int], names[order[b] as int])
    &&& forall|a: int, b: int|
        0 <= a < b < order.len() && lex_le(names[order[b] as int], names[order[a] as int])
            ==> order[a] < order[b]
}

fn insertion_point(names: &Vec<Vec<char>>, order: &Vec<usize>, i: usize) -> (p: usize)
    requires
        i < names.len(),
        forall|k: int| 0 <= k < order@.len() ==> #[trigger] order@[k] < names.len(),
    ensures
        p <= order@.len(),
        p > 0 ==> lex_le(names@[order@[p - 1] as int]@, names@[i as int]@),
        forall|q: int| p <= q < order@.len() ==> !lex_le(names@[order@[q] as int]@, names@[i as int]@),
{
    let mut p: usize = order.len();
    while p > 0
        invariant
            p <= order@.len(),
            i < names.len(),
            forall|k: int| 0 <= k < order@.len() ==> #[trigger] order@[k] < names.len(),
            forall|q: int| p <= q < order@.len() ==> !lex_le(names@[order@[q] as int]@, names@[i as int]@),
        decreases p,
    {
        let j = order[p - 1];
        if lex_le_exec(&names[j], &names[i]) {
            return p;
        }
        p = p - 1;
    }
    p
}

/// The order in which a stable sort by name puts the positions of `names`.
pub fn stable_order(names: &Vec<Vec<char>>) -> (order: Vec<usize>)
    ensures
        is_permutation(order@, names.len() as int),
        sorts_stably(seqs_of(names@), order@),
{
    let ghost ns = seqs_of(names@);
    let mut order: Vec<usize> = Vec::new();
    let mut i: usize = 0;
    while i < names.len()
        invariant
            i <= names.len(),
            ns == seqs_of(names@),
            order@.len() == i,
            forall|k: int| 0 <= k < i ==> #[trigger] order@[k] < i,
            forall|a: int, b: int| 0 <= a < b < i ==> order@[a] != order@[b],
            sorts_stably(ns, order@),
        decreases names.len() - i,
    {
        let p = insertion_point(names, &order, i);
        let ghost old_order = order@;
        let ghost x = ns[i as int];
        assert(forall|q: int| 0 <= q < old_order.len() ==> ns[old_order[q] as int] == names@[old_order[q] as int]@);
        assert(x == names@[i as int]@);
        order.insert(p, i);
        let ghost o = order@;
        assert(o =~= old_order.insert(p as int, i));
        assert forall|k: int| 0 <= k < i + 1 implies #[trigger] o[k] < i + 1 by {
            if k < p {
                assert(o[k] == old_order[k]);
            } else if k > p {
                assert(o[k] == old_order[k - 1]);
            }
        }
        assert forall|a: int, b: int| 0 <= a < b < i + 1 implies o[a] != o[b] by {
            let a0 = if a < p { a } else { a - 1 };
            let b0 = if b < p { b } else { b - 1 };
            if a != p && b != p {
                assert(o[a] == old_order[a0] && o[b] == old_order[b0]);
            } else if a == p {
                assert(o[b] == old_order[b0]);
            } else {
                assert(o[a] == old_order[a0]);
            }
        }
        assert forall|a: int, b: int| 0 <= a < b < o.len() implies lex_le(ns[o[a] as int], ns[o[b] as int]) by {
            let a0 = if a < p { a } else { a - 1 };
            let b0 = if b < p { b } else { b - 1 };
            if a != p && b != p {
                assert(o[a] == old_order[a0] && o[b] == old_order[b0]);
            } else if b == p {
                assert(o[a] == old_order[a]);
                assert(lex_le(ns[old_order[p - 1] as int], x));
                if a < p - 1 {
                    lemma_lex_trans(ns[old_order[a] as int], ns[old_order[p - 1] as int], x);
                }
            } else {
                assert(o[b] == old_order[b0]);
                assert(!lex_le(ns[old_order[b0] as int], x));
                lemma_lex_total(x, ns[old_order[b0] as int]);
            }
        }
        assert forall|a: int, b: int|
            0 <= a < b < o.len() && lex_le(ns[o[b] as int], ns[o[a] as int]) implies o[a] < o[b] by {
            let a0 = if a < p { a } else { a - 1 };
            let b0 = if b < p { b } else { b - 1 };
            if a != p && b != p {
                assert(o[a] == old_order[a0] && o[b] == old_order[b0]);
            } else if b == p {
                assert(o[a] == old_order[a0]);
            } else {
                assert(o[b] == old_order[b0]);
                assert(!lex_le(ns[old_order[b0] as int], x));
            }
        }
        i = i + 1;
    }
    order
}

} // verus!

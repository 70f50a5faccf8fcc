//! Character-level helpers shared by the parsers and formatters of the crate.
use vstd::prelude::*;
use vstd::string::StrSliceExecFns;

verus! {

/// Joins `parts` with `sep` between consecutive parts.
pub open spec fn seq_join(parts: Seq<Seq<char>>, sep: Seq<char>) -> Seq<char>
    decreases parts.len(),
{
    if parts.len() == 0 {
        Seq::empty()
    } else if parts.len() == 1 {
        parts[0]
    } else {
        seq_join(parts.drop_last(), sep) + sep + parts.last()
    }
}

/// The pieces of `s` between occurrences of `c`, as `str::split` with a
/// one-character pattern yields them (always at least one piece).
pub open spec fn split_on(s: Seq<char>, c: char) -> Seq<Seq<char>>
    decreases s.len(),
{
    if s.len() == 0 {
        seq![Seq::<char>::empty()]
    } else {
        let rest = split_on(s.drop_last(), c);
        if s.last() == c {
            rest.push(Seq::<char>::empty())
        } else {
            rest.update(rest.len() - 1, rest.last().push(s.last()))
        }
    }
}

/// Whether `s` begins with `p`.
pub open spec fn has_prefix(s: Seq<char>, p: Seq<char>) -> bool {
    p.len() <= s.len() && s.subrange(0, p.len() as int) == p
}

/// Whether `s` ends with `p`.
pub open spec fn has_suffix(s: Seq<char>, p: Seq<char>) -> bool {
    p.len() <= s.len() && s.subrange(s.len() - p.len(), s.len() as int) == p
}

/// The character of a decimal digit.
pub open spec fn digit_char(d: nat) -> char {
    if d == 0 { '0' }
    else if d == 1 { '1' }
    else if d == 2 { '2' }
    else if d == 3 { '3' }
    else if d == 4 { '4' }
    else if d == 5 { '5' }
    else if d == 6 { '6' }
    else if d == 7 { '7' }
    else if d == 8 { '8' }
    else { '9' }
}

/// The decimal representation of `n`, without sign or leading zeros.
pub open spec fn decimal(n: nat) -> Seq<char>
    decreases n,
{
    if n < 10 {
        seq![digit_char(n)]
    } else {
        decimal(n / 10).push(digit_char(n % 10))
    }
}

/// Splitting gives at least one piece.
pub proof fn lemma_split_on_nonempty(s: Seq<char>, c: char)
    ensures
        split_on(s, c).len() >= 1,
    decreases s.len(),
{
    if s.len() > 0 {
        lemma_split_on_nonempty(s.drop_last(), c);
    }
}

/// Every piece of `split_on(s, c)` is free of `c`.
pub proof fn lemma_split_on_pieces_free(s: Seq<char>, c: char)
    ensures
        forall|i: int| 0 <= i < split_on(s, c).len() ==> !(#[trigger] split_on(s, c)[i]).contains(c),
    decreases s.len(),
{
    if s.len() > 0 {
        let rest = split_on(s.drop_last(), c);
        lemma_split_on_pieces_free(s.drop_last(), c);
        lemma_split_on_nonempty(s.drop_last(), c);
        if s.last() != c {
            let piece = rest.last().push(s.last());
            assert forall|k: int| 0 <= k < piece.len() implies piece[k] != c by {
                if k < rest.last().len() {
                    assert(rest.last()[k] == piece[k]);
                    assert(!rest[rest.len() - 1].contains(c));
                }
            }
            assert(!piece.contains(c));
        }
    }
}

/// Splitting on `c` and joining with `c` gives the text back.
pub proof fn lemma_join_split(s: Seq<char>, c: char)
    ensures
        seq_join(split_on(s, c), seq![c]) == s,
    decreases s.len(),
{
    if s.len() > 0 {
        let init = s.drop_last();
        let rest = split_on(init, c);
        lemma_join_split(init, c);
        lemma_split_on_nonempty(init, c);
        if s.last() == c {
            let pieces = rest.push(Seq::<char>::empty());
            assert(pieces.drop_last() == rest);
            assert(seq_join(pieces, seq![c]) == seq_join(rest, seq![c]) + seq![c] + Seq::<char>::empty());
            assert(s == init.push(c));
        } else {
            let pieces = rest.update(rest.len() - 1, rest.last().push(s.last()));
            lemma_join_last(rest, seq![c], s.last());
            assert(s == init.push(s.last()));
        }
    }
}

/// Appending a character to the last part appends it to the join.
pub proof fn lemma_join_last(parts: Seq<Seq<char>>, sep: Seq<char>, x: char)
    requires
        parts.len() >= 1,
    ensures
        seq_join(parts.update(parts.len() - 1, parts.last().push(x)), sep) == seq_join(parts, sep).push(x),
{
    let up = parts.update(parts.len() - 1, parts.last().push(x));
    if parts.len() == 1 {
    } else {
        assert(up.drop_last() == parts.drop_last());
    }
}

/// Splitting the join of `c`-free parts on `c` gives the parts back.
pub proof fn lemma_split_join(parts: Seq<Seq<char>>, c: char)
    requires
        parts.len() >= 1,
        forall|i: int| 0 <= i < parts.len() ==> !(#[trigger] parts[i]).contains(c),
    ensures
        split_on(seq_join(parts, seq![c]), c) == parts,
    decreases parts.len(),
{
    if parts.len() == 1 {
        lemma_split_free(parts[0], c);
    } else {
        let init = parts.drop_last();
        assert forall|i: int| 0 <= i < init.len() implies !(#[trigger] init[i]).contains(c) by {
            assert(init[i] == parts[i]);
        }
        lemma_split_join(init, c);
        let prefix = seq_join(init, seq![c]) + seq![c];
        assert(!parts[parts.len() - 1].contains(c));
        lemma_split_append_free(prefix, parts.last(), c);
        let pre_c = seq_join(init, seq![c]);
        assert(prefix.drop_last() == pre_c);
        assert(split_on(prefix, c) == init.push(Seq::<char>::empty()));
        assert(parts == init.push(parts.last()));
        assert(init.push(Seq::<char>::empty()).update(init.len() as int, parts.last()) == parts);
    }
}

/// A text free of `c` splits into itself alone.
pub proof fn lemma_split_free(s: Seq<char>, c: char)
    requires
        !s.contains(c),
    ensures
        split_on(s, c) == seq![s],
    decreases s.len(),
{
    if s.len() > 0 {
        let init = s.drop_last();
        assert(!init.contains(c)) by {
            if init.contains(c) {
                let k = choose|k: int| 0 <= k < init.len() && init[k] == c;
                assert(s[k] == c);
            }
        }
        lemma_split_free(init, c);
        assert(s.last() != c) by {
            assert(s[s.len() - 1] == s.last());
        }
        assert(init.push(s.last()) == s);
        assert(split_on(s, c) == split_on(init, c).update(0, init.push(s.last())));
        assert(seq![init].update(0, s) =~= seq![s]);
    } else {
        assert(s =~= Seq::<char>::empty());
    }
}

/// Appending a `c`-free text extends the last piece by it.
pub proof fn lemma_split_append_free(pre: Seq<char>, t: Seq<char>, c: char)
    requires
        !t.contains(c),
    ensures
        split_on(pre + t, c) == split_on(pre, c).update(
            split_on(pre, c).len() - 1,
            split_on(pre, c).last() + t,
        ),
    decreases t.len(),
{
    lemma_split_on_nonempty(pre, c);
    if t.len() == 0 {
        assert(pre + t == pre);
        assert(split_on(pre, c).last() + t == split_on(pre, c).last());
        assert(split_on(pre, c).update(split_on(pre, c).len() - 1, split_on(pre, c).last()) == split_on(pre, c));
    } else {
        let ti = t.drop_last();
        assert(!ti.contains(c)) by {
            if ti.contains(c) {
                let k = choose|k: int| 0 <= k < ti.len() && ti[k] == c;
                assert(t[k] == c);
            }
        }
        lemma_split_append_free(pre, ti, c);
        assert((pre + t).drop_last() == pre + ti);
        assert((pre + t).last() == t.last());
        assert(t.last() != c) by {
            assert(t[t.len() - 1] == t.last());
        }
        lemma_split_on_nonempty(pre + ti, c);
        let sp = split_on(pre, c);
        let mid = split_on(pre + ti, c);
        assert(mid == sp.update(sp.len() - 1, sp.last() + ti));
        assert(mid.last() == sp.last() + ti);
        assert(split_on(pre + t, c) == mid.update(mid.len() - 1, mid.last().push(t.last())));
        assert((sp.last() + ti).push(t.last()) == sp.last() + t) by {
            assert(ti.push(t.last()) == t);
        }
        assert(mid.update(mid.len() - 1, mid.last().push(t.last()))
            =~= sp.update(sp.len() - 1, sp.last() + t));
        assert(split_on(pre, c).last() + ti + seq![t.last()] == split_on(pre, c).last() + t) by {
            assert(ti + seq![t.last()] == t);
            assert(split_on(pre, c).last() + ti + seq![t.last()] == split_on(pre, c).last() + (ti + seq![t.last()]));
        }
    }
}

/// The texts of a list of strings.
pub open spec fn views(v: Seq<String>) -> Seq<Seq<char>> {
    v.map_values(|s: String| s@)
}

/// A list without repeats is no longer than any list holding all its items.
pub proof fn lemma_distinct_within_len<A>(s: Seq<A>, u: Seq<A>)
    requires
        s.no_duplicates(),
        forall|i: int| 0 <= i < s.len() ==> u.contains(#[trigger] s[i]),
    ensures
        s.len() <= u.len(),
{
    s.unique_seq_to_set();
    u.lemma_cardinality_of_set();
    assert(s.to_set().subset_of(u.to_set())) by {
        assert forall|x: A| s.to_set().contains(x) implies u.to_set().contains(x) by {
            let i = choose|i: int| 0 <= i < s.len() && s[i] == x;
            assert(u.contains(s[i]));
        }
    }
    vstd::set_lib::lemma_len_subset(s.to_set(), u.to_set());
}

/// The position of the first string whose text is `t`.
pub fn position_of(v: &Vec<String>, t: &str) -> (r: Option<usize>)
    ensures
        r is None <==> !views(v@).contains(t@),
        r matches Some(i) ==> i < v.len() && v@[i as int]@ == t@
            && forall|k: int| 0 <= k < i ==> v@[k]@ != t@,
{
    let mut i: usize = 0;
    while i < v.len()
        invariant
            i <= v.len(),
            forall|k: int| 0 <= k < i ==> v@[k]@ != t@,
        decreases v.len() - i,
    {
        if same_text(v[i].as_str(), t) {
            assert(views(v@)[i as int] == t@);
            return Some(i);
        }
        i += 1;
    }
    proof {
        if views(v@).contains(t@) {
            let k = choose|k: int| 0 <= k < views(v@).len() && views(v@)[k] == t@;
            assert(v@[k]@ == t@);
        }
    }
    None
}

/// Whether some string of `v` has the text `t`.
pub fn contains_text(v: &Vec<String>, t: &str) -> (b: bool)
    ensures
        b == views(v@).contains(t@),
{
    position_of(v, t).is_some()
}

/// The characters of `s`, in order.
pub fn chars_of(s: &str) -> (v: Vec<char>)
    ensures
        v@ == s@,
{
    broadcast use vstd::string::group_string_axioms;
    let mut v: Vec<char> = Vec::new();
    let ghost full = s@;
    for c in it: s.chars()
        invariant
            full == s@,
            it.seq() == full,
            v@ == it.seq().take(it.index() as int),
    {
        v.push(c);
    }
    v
}

/// Appends one character (`String::push`).
#[verifier::external_body]
pub(crate) fn push_char(s: &mut String, c: char)
    ensures
        final(s)@ == old(s)@.push(c),
{
    s.push(c);
}

/// Appends text (`String::push_str`).
#[verifier::external_body]
pub(crate) fn push_str(s: &mut String, t: &str)
    ensures
        final(s)@ == old(s)@ + t@,
{
    s.push_str(t);
}

/// Copies a `str` into a new `String` (`str::to_string`).
#[verifier::external_body]
pub(crate) fn to_owned_string(s: &str) -> (r: String)
    ensures
        r@ == s@,
{
    s.to_string()
}

/// The string made of the characters `v[from..to]`.
pub fn string_from_range(v: &Vec<char>, from: usize, to: usize) -> (s: String)
    requires
        from <= to <= v.len(),
    ensures
        s@ == v@.subrange(from as int, to as int),
{
    let mut s = String::new();
    let mut i = from;
    while i < to
        invariant
            from <= i <= to <= v.len(),
            s@ == v@.subrange(from as int, i as int),
        decreases to - i,
    {
        push_char(&mut s, v[i]);
        assert(v@.subrange(from as int, i + 1) == v@.subrange(from as int, i as int).push(v@[i as int]));
        i += 1;
    }
    s
}

/// Equality of the text of two strings.
pub fn same_text(a: &str, b: &str) -> (r: bool)
    ensures
        r == (a@ == b@),
{
    let va = chars_of(a);
    let vb = chars_of(b);
    if va.len() != vb.len() {
        return false;
    }
    let mut i: usize = 0;
    while i < va.len()
        invariant
            va@ == a@,
            vb@ == b@,
            va.len() == vb.len(),
            i <= va.len(),
            forall|k: int| 0 <= k < i ==> va@[k] == vb@[k],
        decreases va.len() - i,
    {
        if va[i] != vb[i] {
            return false;
        }
        i += 1;
    }
    assert(va@ == vb@);
    true
}

/// Whether `c` occurs in `s`.
pub fn has_char(s: &str, c: char) -> (r: bool)
    ensures
        r == s@.contains(c),
{
    let v = chars_of(s);
    let mut i: usize = 0;
    while i < v.len()
        invariant
            v@ == s@,
            i <= v.len(),
            forall|k: int| 0 <= k < i ==> v@[k] != c,
        decreases v.len() - i,
    {
        if v[i] == c {
            return true;
        }
        i += 1;
    }
    false
}

/// Whether the characters `v[at..]` begin with `p`.
pub fn chars_have_prefix_at(v: &Vec<char>, at: usize, p: &Vec<char>) -> (r: bool)
    requires
        at <= v.len(),
    ensures
        r == has_prefix(v@.subrange(at as int, v@.len() as int), p@),
{
    if p.len() > v.len() - at {
        return false;
    }
    let mut i: usize = 0;
    while i < p.len()
        invariant
            at + p.len() <= v.len(),
            i <= p.len(),
            forall|k: int| 0 <= k < i ==> v@[at + k] == p@[k],
        decreases p.len() - i,
    {
        if v[at + i] != p[i] {
            assert(v@.subrange(at as int, v@.len() as int).subrange(0, p@.len() as int)[i as int] == v@[at + i]);
            return false;
        }
        i += 1;
    }
    assert(v@.subrange(at as int, v@.len() as int).subrange(0, p@.len() as int) == p@);
    true
}

/// Whether `s` begins with `p` (`str::starts_with`).
pub fn starts_with(s: &str, p: &str) -> (r: bool)
    ensures
        r == has_prefix(s@, p@),
{
    let v = chars_of(s);
    let pv = chars_of(p);
    let r = chars_have_prefix_at(&v, 0, &pv);
    assert(v@.subrange(0, v@.len() as int) == v@);
    r
}

/// Whether `s` ends with `p` (`str::ends_with`).
pub fn ends_with(s: &str, p: &str) -> (r: bool)
    ensures
        r == has_suffix(s@, p@),
{
    let v = chars_of(s);
    let pv = chars_of(p);
    if pv.len() > v.len() {
        return false;
    }
    let at = v.len() - pv.len();
    let r = chars_have_prefix_at(&v, at, &pv);
    assert(v@.subrange(at as int, v@.len() as int).subrange(0, pv@.len() as int)
        == v@.subrange(at as int, v@.len() as int));
    r
}

/// The decimal text of `n`.
pub fn decimal_string(n: u64) -> (s: String)
    ensures
        s@ == decimal(n as nat),
    decreases n,
{
    if n < 10 {
        let mut s = String::new();
        push_char(&mut s, digit(n));
        s
    } else {
        let mut s = decimal_string(n / 10);
        push_char(&mut s, digit(n % 10));
        s
    }
}

/// The character of the decimal digit `d`.
pub fn digit(d: u64) -> (c: char)
    requires
        d < 10,
    ensures
        c == digit_char(d as nat),
{
    if d == 0 { '0' }
    else if d == 1 { '1' }
    else if d == 2 { '2' }
    else if d == 3 { '3' }
    else if d == 4 { '4' }
    else if d == 5 { '5' }
    else if d == 6 { '6' }
    else if d == 7 { '7' }
    else if d == 8 { '8' }
    else { '9' }
}

/// The decimal text of a `usize`.
pub fn decimal_usize(n: usize) -> (s: String)
    ensures
        s@ == decimal(n as nat),
{
    decimal_string(n as u64)
}

/// Joins `parts` with `sep` (`[String]::join`).
pub fn join(parts: &Vec<String>, sep: &str) -> (s: String)
    ensures
        s@ == seq_join(parts@.map_values(|p: String| p@), sep@),
{
    let ghost views = parts@.map_values(|p: String| p@);
    let mut s = String::new();
    let mut i: usize = 0;
    while i < parts.len()
        invariant
            views == parts@.map_values(|p: String| p@),
            i <= parts.len(),
            s@ == seq_join(views.take(i as int), sep@),
        decreases parts.len() - i,
    {
        if i > 0 {
            push_str(&mut s, sep);
        }
        push_str(&mut s, parts[i].as_str());
        assert(views.take(i + 1).drop_last() == views.take(i as int));
        i += 1;
    }
    assert(views.take(parts.len() as int) == views);
    s
}

/// The pieces of `s` between occurrences of `c` (`str::split`).
pub fn split(s: &str, c: char) -> (pieces: Vec<String>)
    ensures
        pieces@.map_values(|p: String| p@) == split_on(s@, c),
{
    let v = chars_of(s);
    let mut pieces: Vec<String> = Vec::new();
    let mut start: usize = 0;
    let mut i: usize = 0;
    assert(v@.take(0) =~= Seq::<char>::empty());
    assert(v@.subrange(0, 0) =~= Seq::<char>::empty());
    assert(pieces@.map_values(|p: String| p@) =~= Seq::<Seq<char>>::empty());
    assert(Seq::<Seq<char>>::empty().push(Seq::<char>::empty()) =~= seq![Seq::<char>::empty()]);
    while i < v.len()
        invariant
            v@ == s@,
            start <= i <= v.len(),
            pieces@.map_values(|p: String| p@).push(v@.subrange(start as int, i as int))
                == split_on(v@.take(i as int), c),
        decreases v.len() - i,
    {
        let ghost before = pieces@.map_values(|p: String| p@);
        assert(v@.take(i + 1).drop_last() == v@.take(i as int));
        assert(v@.take(i + 1).last() == v@[i as int]);
        if v[i] == c {
            let piece = string_from_range(&v, start, i);
            pieces.push(piece);
            assert(pieces@.map_values(|p: String| p@) == before.push(v@.subrange(start as int, i as int)));
            start = i + 1;
            assert(v@.subrange(start as int, i + 1) == Seq::<char>::empty());
        } else {
            assert(v@.subrange(start as int, i + 1) == v@.subrange(start as int, i as int).push(v@[i as int]));
        }
        i += 1;
    }
    let last = string_from_range(&v, start, v.len());
    let ghost before = pieces@.map_values(|p: String| p@);
    pieces.push(last);
    assert(pieces@.map_values(|p: String| p@) == before.push(v@.subrange(start as int, v@.len() as int)));
    assert(v@.take(v@.len() as int) == v@);
    pieces
}

/// Whether `c` has the Unicode `White_Space` property (`char::is_whitespace`).
pub open spec fn is_ws(c: char) -> bool {
    ||| '\t' <= c <= '\r'
    ||| c == ' '
    ||| c == '\u{85}'
    ||| c == '\u{A0}'
    ||| c == '\u{1680}'
    ||| '\u{2000}' <= c <= '\u{200A}'
    ||| c == '\u{2028}'
    ||| c == '\u{2029}'
    ||| c == '\u{202F}'
    ||| c == '\u{205F}'
    ||| c == '\u{3000}'
}

/// `s` without its leading whitespace.
pub open spec fn trim_start_ws(s: Seq<char>) -> Seq<char>
    decreases s.len(),
{
    if s.len() > 0 && is_ws(s[0]) {
        trim_start_ws(s.drop_first())
    } else {
        s
    }
}

/// `s` without its trailing whitespace.
pub open spec fn trim_end_ws(s: Seq<char>) -> Seq<char>
    decreases s.len(),
{
    if s.len() > 0 && is_ws(s.last()) {
        trim_end_ws(s.drop_last())
    } else {
        s
    }
}

/// `s` without leading and trailing whitespace.
pub open spec fn trim_ws(s: Seq<char>) -> Seq<char> {
    trim_end_ws(trim_start_ws(s))
}

/// A line as `str::lines` yields it: a piece that a line feed ended loses
/// a final carriage return.
pub open spec fn strip_cr(piece: Seq<char>) -> Seq<char> {
    if piece.len() > 0 && piece.last() == '\r' {
        piece.drop_last()
    } else {
        piece
    }
}

/// The lines of `s`, as `str::lines` yields them: the text is cut at each
/// line feed, each piece a line feed ended loses a final carriage return,
/// and the text after the last line feed is a line only when not empty.
pub open spec fn lines_of(s: Seq<char>) -> Seq<Seq<char>> {
    let pieces = split_on(s, '\n');
    let ended = pieces.drop_last().map_values(|p: Seq<char>| strip_cr(p));
    if pieces.last().len() > 0 {
        ended.push(pieces.last())
    } else {
        ended
    }
}

/// The lines of `s` (as `str::lines` yields them, collected).
pub(crate) fn lines<'a>(s: &'a str) -> (v: Vec<&'a str>)
    ensures
        v@.map_values(|l: &str| l@) == lines_of(s@),
{
    let cs = chars_of(s);
    let mut out: Vec<&'a str> = Vec::new();
    let ghost mut ended: Seq<Seq<char>> = Seq::empty();
    let mut start: usize = 0;
    let mut i: usize = 0;
    assert(s@.take(0) =~= Seq::<char>::empty());
    assert(ended.push(s@.subrange(0, 0)) =~= seq![Seq::<char>::empty()]);
    assert(out@.map_values(|l: &str| l@) =~= ended.map_values(|p: Seq<char>| strip_cr(p)));
    while i < cs.len()
        invariant
            cs@ == s@,
            start <= i <= cs.len(),
            ended.push(s@.subrange(start as int, i as int)) == split_on(s@.take(i as int), '\n'),
            out@.map_values(|l: &str| l@) == ended.map_values(|p: Seq<char>| strip_cr(p)),
        decreases cs.len() - i,
    {
        assert(s@.take(i + 1).drop_last() =~= s@.take(i as int));
        assert(s@.take(i + 1).last() == s@[i as int]);
        let ghost piece = s@.subrange(start as int, i as int);
        if cs[i] == '\n' {
            let end = if i > start && cs[i - 1] == '\r' {
                i - 1
            } else {
                i
            };
            let line = s.substring_char(start, end);
            assert(line@ =~= strip_cr(piece));
            let ghost before = out@;
            out.push(line);
            proof {
                ended = ended.push(piece);
            }
            assert(out@.map_values(|l: &str| l@) =~= before.map_values(|l: &str| l@).push(line@));
            assert(out@.map_values(|l: &str| l@) =~= ended.map_values(|p: Seq<char>| strip_cr(p)));
            start = i + 1;
            assert(s@.subrange(start as int, i + 1) =~= Seq::<char>::empty());
        } else {
            assert(s@.subrange(start as int, i + 1) =~= piece.push(s@[i as int]));
            assert(ended.push(piece).update(ended.len() as int, piece.push(s@[i as int])) =~= ended.push(
                piece.push(s@[i as int]),
            ));
        }
        i += 1;
    }
    assert(s@.take(cs.len() as int) =~= s@);
    let ghost last = s@.subrange(start as int, cs.len() as int);
    assert(split_on(s@, '\n').drop_last() =~= ended);
    assert(split_on(s@, '\n').last() == last);
    if start < cs.len() {
        let line = s.substring_char(start, cs.len());
        let ghost before = out@;
        out.push(line);
        assert(out@.map_values(|l: &str| l@) =~= before.map_values(|l: &str| l@).push(line@));
    }
    out
}

/// `s` after the prefix `p`, if `s` begins with it (as `str::strip_prefix`
/// with a text pattern).
pub(crate) fn strip_prefix<'a>(s: &'a str, p: &str) -> (r: Option<&'a str>)
    ensures
        r is Some <==> has_prefix(s@, p@),
        r matches Some(t) ==> t@ == s@.skip(p@.len() as int),
{
    let sv = chars_of(s);
    let pv = chars_of(p);
    if pv.len() > sv.len() {
        return None;
    }
    let mut i: usize = 0;
    while i < pv.len()
        invariant
            sv@ == s@,
            pv@ == p@,
            pv.len() <= sv.len(),
            i <= pv.len(),
            forall|k: int| 0 <= k < i ==> sv@[k] == pv@[k],
        decreases pv.len() - i,
    {
        if sv[i] != pv[i] {
            assert(s@.subrange(0, p@.len() as int)[i as int] != p@[i as int]);
            return None;
        }
        i += 1;
    }
    assert(s@.subrange(0, p@.len() as int) =~= p@);
    let rest = s.substring_char(pv.len(), sv.len());
    assert(rest@ =~= s@.skip(p@.len() as int));
    Some(rest)
}

/// Whether a character has the Unicode `White_Space` property.
fn is_whitespace_char(c: char) -> (b: bool)
    ensures
        b == is_ws(c),
{
    ('\t' <= c && c <= '\r') || c == ' ' || c == '\u{85}' || c == '\u{A0}' || c == '\u{1680}' || ('\u{2000}' <= c && c
        <= '\u{200A}') || c == '\u{2028}' || c == '\u{2029}' || c == '\u{202F}' || c == '\u{205F}' || c == '\u{3000}'
}

/// Dropping a whitespace-only front, up to a character that is not
/// whitespace (or the end), is trimming the start.
proof fn lemma_trim_start_at(s: Seq<char>, start: int)
    requires
        0 <= start <= s.len(),
        forall|j: int| 0 <= j < start ==> is_ws(#[trigger] s[j]),
        start == s.len() || !is_ws(s[start]),
    ensures
        trim_start_ws(s) == s.skip(start),
    decreases start,
{
    if start == 0 {
        assert(s.skip(0) =~= s);
    } else {
        let t = s.drop_first();
        assert forall|j: int| 0 <= j < start - 1 implies is_ws(#[trigger] t[j]) by {
            assert(t[j] == s[j + 1]);
        }
        if start - 1 < t.len() {
            assert(t[start - 1] == s[start]);
        }
        lemma_trim_start_at(t, start - 1);
        assert(t.skip(start - 1) =~= s.skip(start));
    }
}

/// Dropping a whitespace-only back, down to a character that is not
/// whitespace (or the start), is trimming the end.
proof fn lemma_trim_end_at(s: Seq<char>, end: int)
    requires
        0 <= end <= s.len(),
        forall|j: int| end <= j < s.len() ==> is_ws(#[trigger] s[j]),
        end == 0 || !is_ws(s[end - 1]),
    ensures
        trim_end_ws(s) == s.take(end),
    decreases s.len() - end,
{
    if end == s.len() {
        assert(s.take(end) =~= s);
    } else {
        let t = s.drop_last();
        assert forall|j: int| end <= j < t.len() implies is_ws(#[trigger] t[j]) by {
            assert(t[j] == s[j]);
        }
        if end > 0 {
            assert(t[end - 1] == s[end - 1]);
        }
        lemma_trim_end_at(t, end);
        assert(t.take(end) =~= s.take(end));
    }
}

/// `s` without leading and trailing whitespace (as `str::trim`).
pub(crate) fn trim<'a>(s: &'a str) -> (r: &'a str)
    ensures
        r@ == trim_ws(s@),
{
    let v = chars_of(s);
    let n = v.len();
    let mut start: usize = 0;
    while start < n && is_whitespace_char(v[start])
        invariant
            v@ == s@,
            n == v.len(),
            start <= n,
            forall|j: int| 0 <= j < start ==> is_ws(#[trigger] s@[j]),
        decreases n - start,
    {
        start += 1;
    }
    proof {
        lemma_trim_start_at(s@, start as int);
    }
    let ghost u = s@.skip(start as int);
    let mut end: usize = n;
    while end > start && is_whitespace_char(v[end - 1])
        invariant
            v@ == s@,
            n == v.len(),
            start <= end <= n,
            u == s@.skip(start as int),
            forall|j: int| end - start <= j < u.len() ==> is_ws(#[trigger] u[j]),
        decreases end - start,
    {
        assert(u[end - 1 - start] == s@[end - 1]);
        end -= 1;
    }
    proof {
        if end > start {
            assert(u[end - start - 1] == s@[end - 1]);
        }
        lemma_trim_end_at(u, end - start);
    }
    let r = s.substring_char(start, end);
    assert(r@ =~= u.take(end - start));
    r
}

/// Whether `t` occurs in `s` (`str::contains` with a text pattern).
pub open spec fn has_substring(s: Seq<char>, t: Seq<char>) -> bool {
    exists|i: int| 0 <= i && i + t.len() <= s.len() && #[trigger] s.subrange(i, i + t.len()) == t
}

/// Whether `t` occurs in `s`.
pub fn contains_str(s: &str, t: &str) -> (b: bool)
    ensures
        b == has_substring(s@, t@),
{
    let v = chars_of(s);
    let p = chars_of(t);
    if p.len() > v.len() {
        return false;
    }
    let last = v.len() - p.len();
    let mut i: usize = 0;
    loop
        invariant
            v@ == s@,
            p@ == t@,
            p.len() <= v.len(),
            last == v.len() - p.len(),
            i <= last,
            forall|k: int| 0 <= k < i ==> #[trigger] v@.subrange(k, k + p@.len()) != p@,
        decreases last - i,
    {
        assert(v@.subrange(i as int, v@.len() as int).subrange(0, p@.len() as int) =~= v@.subrange(
            i as int,
            i + p@.len(),
        ));
        if chars_have_prefix_at(&v, i, &p) {
            return true;
        }
        if i == last {
            return false;
        }
        i += 1;
    }
}

/// The text that `{:?}` gives for a string: quoted, with escapes.
pub uninterp spec fn debug_str_text(s: Seq<char>) -> Seq<char>;

/// Formats a string with `{:?}` (`<str as Debug>::fmt`).
#[verifier::external_body]
pub(crate) fn debug_str(s: &str) -> (r: String)
    ensures
        r@ == debug_str_text(s@),
{
    format!("{s:?}")
}

} // verus!

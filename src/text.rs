//! Character-level text helpers shared by the anchor search and the layout engine.
use vstd::prelude::*;

verus! {

/// What `str::to_lowercase` makes of a text: the full Unicode lowercase mapping.
pub uninterp spec fn lower_of(s: Seq<char>) -> Seq<char>;

/// Relies on `String::push`: the character is appended at the end.
#[verifier::external_body]
pub(crate) fn push_char(s: &mut String, c: char)
    ensures
        final(s)@ == old(s)@.push(c),
{
    s.push(c)
}

/// Relies on `str::to_lowercase`: the result depends on the characters alone.
#[verifier::external_body]
pub(crate) fn lowercase(s: &str) -> (r: String)
    ensures
        r@ == lower_of(s@),
{
    s.to_lowercase()
}

/// Whether `c` has the Unicode White_Space property, as `char::is_whitespace` says.
pub open spec fn is_white_space(c: char) -> bool {
    let u = c as int;
    (0x9 <= u <= 0xd) || u == 0x20 || u == 0x85 || u == 0xa0 || u == 0x1680 || (0x2000 <= u <= 0x200a) || u
        == 0x2028 || u == 0x2029 || u == 0x202f || u == 0x205f || u == 0x3000
}

/// `s` without its leading white space.
pub open spec fn trim_start_of(s: Seq<char>) -> Seq<char>
    decreases s.len(),
{
    if s.len() > 0 && is_white_space(s[0]) {
        trim_start_of(s.drop_first())
    } else {
        s
    }
}

/// `s` without its trailing white space.
pub open spec fn trim_end_of(s: Seq<char>) -> Seq<char>
    decreases s.len(),
{
    if s.len() > 0 && is_white_space(s.last()) {
        trim_end_of(s.drop_last())
    } else {
        s
    }
}

/// What `str::trim` makes of a text: leading and trailing white space removed.
pub open spec fn trim_of(s: Seq<char>) -> Seq<char> {
    trim_end_of(trim_start_of(s))
}

/// Whether `c` is white space.
pub fn is_white_space_char(c: char) -> (r: bool)
    ensures
        r == is_white_space(c),
{
    let u = c as u32;
    (0x9 <= u && u <= 0xd) || u == 0x20 || u == 0x85 || u == 0xa0 || u == 0x1680 || (0x2000 <= u && u <= 0x200a)
        || u == 0x2028 || u == 0x2029 || u == 0x202f || u == 0x205f || u == 0x3000
}

/// `s` with leading and trailing white space removed.
pub fn trim(s: &str) -> (r: String)
    ensures
        r@ == trim_of(s@),
{
    let cs = chars_of(s);
    let n = cs.len();
    let mut a: usize = 0;
    assert(cs@.subrange(0, n as int) =~= cs@);
    while a < n && is_white_space_char(cs[a])
        invariant
            n == cs@.len(),
            a <= n,
            trim_start_of(cs@.subrange(a as int, n as int)) == trim_start_of(cs@),
        decreases n - a,
    {
        assert(cs@.subrange(a as int, n as int).drop_first() =~= cs@.subrange(a + 1, n as int));
        a += 1;
    }
    let mut b: usize = n;
    assert(trim_start_of(cs@.subrange(a as int, n as int)) == cs@.subrange(a as int, n as int));
    while b > a && is_white_space_char(cs[b - 1])
        invariant
            n == cs@.len(),
            a <= b <= n,
            trim_end_of(cs@.subrange(a as int, b as int)) == trim_of(cs@),
        decreases b - a,
    {
        assert(cs@.subrange(a as int, b as int).drop_last() =~= cs@.subrange(a as int, b - 1));
        b -= 1;
    }
    let mut r = String::new();
    let mut k: usize = a;
    while k < b
        invariant
            a <= k <= b <= n,
            n == cs@.len(),
            r@ == cs@.subrange(a as int, k as int),
        decreases b - k,
    {
        push_char(&mut r, cs[k]);
        assert(r@ =~= cs@.subrange(a as int, k + 1));
        k += 1;
    }
    assert(cs@ == s@);
    r
}

/// `needle` occurs in `hay` as a contiguous block.
pub open spec fn seq_contains(hay: Seq<char>, needle: Seq<char>) -> bool {
    exists|i: int| 0 <= i <= hay.len() - needle.len() && #[trigger] hay.subrange(i, i + needle.len()) == needle
}

/// `hay` begins with `needle`.
pub open spec fn seq_starts_with(hay: Seq<char>, needle: Seq<char>) -> bool {
    needle.len() <= hay.len() && hay.subrange(0, needle.len() as int) == needle
}

/// `hay` ends with `needle`.
pub open spec fn seq_ends_with(hay: Seq<char>, needle: Seq<char>) -> bool {
    needle.len() <= hay.len() && hay.subrange(hay.len() - needle.len(), hay.len() as int) == needle
}

/// `s` with every carriage-return/line-feed pair taken out, scanning left to right.
pub open spec fn strip_crlf(s: Seq<char>) -> Seq<char>
    decreases s.len(),
{
    if s.len() == 0 {
        s
    } else if s.len() >= 2 && s[0] == '\r' && s[1] == '\n' {
        strip_crlf(s.subrange(2, s.len() as int))
    } else {
        seq![s[0]].add(strip_crlf(s.subrange(1, s.len() as int)))
    }
}

/// The characters of `s`, one by one.
pub fn chars_of(s: &str) -> (r: Vec<char>)
    ensures
        r@ == s@,
{
    let n = s.unicode_len();
    let mut r: Vec<char> = Vec::new();
    let mut i: usize = 0;
    while i < n
        invariant
            n == s@.len(),
            i <= n,
            r@ == s@.subrange(0, i as int),
        decreases n - i,
    {
        r.push(s.get_char(i));
        i += 1;
    }
    assert(r@ == s@.subrange(0, n as int));
    r
}

/// Whether `needle` stands in `hay` from position `at` on.
fn block_at(hay: &Vec<char>, needle: &Vec<char>, at: usize) -> (r: bool)
    requires
        at + needle@.len() <= hay@.len(),
    ensures
        r == (hay@.subrange(at as int, at + needle@.len()) == needle@),
{
    let hn = hay.len();
    let mut k: usize = 0;
    while k < needle.len()
        invariant
            at + needle@.len() <= hay@.len(),
            hn == hay@.len(),
            k <= needle@.len(),
            forall|j: int| 0 <= j < k ==> hay@[at + j] == needle@[j],
        decreases needle@.len() - k,
    {
        if hay[at + k] != needle[k] {
            assert(hay@.subrange(at as int, at + needle@.len())[k as int] != needle@[k as int]);
            return false;
        }
        k += 1;
    }
    assert(hay@.subrange(at as int, at + needle@.len()) =~= needle@);
    true
}

/// Whether `needle` occurs in `hay`.
pub fn vec_contains(hay: &Vec<char>, needle: &Vec<char>) -> (r: bool)
    ensures
        r == seq_contains(hay@, needle@),
{
    if needle.len() > hay.len() {
        return false;
    }
    let last = hay.len() - needle.len();
    let mut i: usize = 0;
    loop
        invariant
            last == hay@.len() - needle@.len(),
            i <= last,
            forall|j: int| 0 <= j < i ==> #[trigger] hay@.subrange(j, j + needle@.len()) != needle@,
        decreases last - i,
    {
        if block_at(hay, needle, i) {
            return true;
        }
        if i == last {
            return false;
        }
        i += 1;
    }
}

/// Whether `hay` begins with `needle`.
pub fn vec_starts_with(hay: &Vec<char>, needle: &Vec<char>) -> (r: bool)
    ensures
        r == seq_starts_with(hay@, needle@),
{
    if needle.len() > hay.len() {
        return false;
    }
    block_at(hay, needle, 0)
}

/// Whether `hay` ends with `needle`.
pub fn vec_ends_with(hay: &Vec<char>, needle: &Vec<char>) -> (r: bool)
    ensures
        r == seq_ends_with(hay@, needle@),
{
    if needle.len() > hay.len() {
        return false;
    }
    block_at(hay, needle, hay.len() - needle.len())
}

proof fn lemma_strip_crlf_step(s: Seq<char>, i: int)
    requires
        0 <= i < s.len(),
    ensures
        i + 1 < s.len() && s[i] == '\r' && s[i + 1] == '\n' ==> strip_crlf(s.subrange(i, s.len() as int))
            == strip_crlf(s.subrange(i + 2, s.len() as int)),
        !(i + 1 < s.len() && s[i] == '\r' && s[i + 1] == '\n') ==> strip_crlf(s.subrange(i, s.len() as int))
            == seq![s[i]].add(strip_crlf(s.subrange(i + 1, s.len() as int))),
{
    let t = s.subrange(i, s.len() as int);
    if i + 1 < s.len() {
        assert(t.subrange(2, t.len() as int) =~= s.subrange(i + 2, s.len() as int));
    }
    assert(t.subrange(1, t.len() as int) =~= s.subrange(i + 1, s.len() as int));
}

/// `s` with its carriage-return/line-feed pairs removed.
pub fn remove_crlf(s: &str) -> (r: String)
    ensures
        r@ == strip_crlf(s@),
{
    let cs = chars_of(s);
    let n = cs.len();
    let mut r = String::new();
    let mut i: usize = 0;
    assert(cs@.subrange(0, n as int) =~= cs@);
    assert(r@.add(strip_crlf(cs@)) =~= strip_crlf(cs@));
    while i < n
        invariant
            n == cs@.len(),
            cs@ == s@,
            i <= n,
            r@.add(strip_crlf(cs@.subrange(i as int, n as int))) == strip_crlf(cs@),
        decreases n - i,
    {
        proof {
            lemma_strip_crlf_step(cs@, i as int);
        }
        if i + 1 < n && cs[i] == '\r' && cs[i + 1] == '\n' {
            i += 2;
        } else {
            let ghost before = r@;
            push_char(&mut r, cs[i]);
            assert(r@.add(strip_crlf(cs@.subrange(i + 1, n as int))) =~= before.add(
                seq![cs@[i as int]].add(strip_crlf(cs@.subrange(i + 1, n as int))),
            ));
            i += 1;
        }
    }
    assert(cs@.subrange(n as int, n as int) =~= Seq::<char>::empty());
    assert(r@.add(Seq::<char>::empty()) =~= r@);
    r
}

/// A cell text as the extraction keeps it: trimmed, with line breaks taken out.
pub open spec fn cleaned(s: Seq<char>) -> Seq<char> {
    strip_crlf(trim_of(s))
}

/// Trims `s` and removes its carriage-return/line-feed pairs.
pub fn clean_text(s: &str) -> (r: String)
    ensures
        r@ == cleaned(s@),
{
    let t = trim(s);
    remove_crlf(t.as_str())
}

/// Character-wise equality of two texts.
pub fn str_eq(a: &str, b: &str) -> (r: bool)
    ensures
        r == (a@ == b@),
{
    let x = a.to_owned();
    let y = b.to_owned();
    x == y
}

/// Strict lexicographic order of texts by character code.
pub open spec fn text_lt(a: Seq<char>, b: Seq<char>) -> bool
    decreases a.len(),
{
    if b.len() == 0 {
        false
    } else if a.len() == 0 {
        true
    } else if a[0] != b[0] {
        (a[0] as int) < (b[0] as int)
    } else {
        text_lt(a.drop_first(), b.drop_first())
    }
}

/// No text comes before itself.
pub proof fn lemma_text_lt_irreflexive(a: Seq<char>)
    ensures
        !text_lt(a, a),
    decreases a.len(),
{
    if a.len() > 0 {
        lemma_text_lt_irreflexive(a.drop_first());
    }
}

/// The order of texts is transitive.
pub proof fn lemma_text_lt_transitive(a: Seq<char>, b: Seq<char>, c: Seq<char>)
    requires
        text_lt(a, b),
        text_lt(b, c),
    ensures
        text_lt(a, c),
    decreases a.len(),
{
    if a.len() > 0 && b.len() > 0 && c.len() > 0 && a[0] == b[0] && b[0] == c[0] {
        lemma_text_lt_transitive(a.drop_first(), b.drop_first(), c.drop_first());
    }
}

/// Of two different texts, one comes first.
pub proof fn lemma_text_lt_total(a: Seq<char>, b: Seq<char>)
    requires
        a != b,
    ensures
        text_lt(a, b) || text_lt(b, a),
    decreases a.len(),
{
    if a.len() == 0 {
        if b.len() == 0 {
            assert(a =~= b);
        }
    } else if b.len() == 0 {
    } else if a[0] == b[0] {
        if a.drop_first() == b.drop_first() {
            assert(a =~= seq![a[0]] + a.drop_first());
            assert(b =~= seq![b[0]] + b.drop_first());
        }
        lemma_text_lt_total(a.drop_first(), b.drop_first());
    } else {
        assert((a[0] as int) != (b[0] as int));
    }
}

/// Whether `a` comes strictly before `b`, comparing character codes.
pub fn text_less(a: &str, b: &str) -> (r: bool)
    ensures
        r == text_lt(a@, b@),
{
    let x = chars_of(a);
    let y = chars_of(b);
    let mut k: usize = 0;
    assert(x@.subrange(0, x@.len() as int) =~= a@);
    assert(y@.subrange(0, y@.len() as int) =~= b@);
    while k < x.len() && k < y.len()
        invariant
            x@ == a@,
            y@ == b@,
            k <= x@.len(),
            k <= y@.len(),
            text_lt(a@, b@) == text_lt(x@.subrange(k as int, x@.len() as int), y@.subrange(k as int, y@.len() as int)),
        decreases x@.len() - k,
    {
        let ghost xs = x@.subrange(k as int, x@.len() as int);
        let ghost ys = y@.subrange(k as int, y@.len() as int);
        assert(xs.drop_first() =~= x@.subrange(k + 1, x@.len() as int));
        assert(ys.drop_first() =~= y@.subrange(k + 1, y@.len() as int));
        if x[k] != y[k] {
            return x[k] < y[k];
        }
        k += 1;
    }
    k < y.len()
}

/// `s` with every occurrence of `from` replaced by `to`, scanning left to right
/// without overlaps.
pub open spec fn replaced(s: Seq<char>, from: Seq<char>, to: Seq<char>) -> Seq<char>
    decreases s.len(),
{
    if from.len() == 0 || s.len() < from.len() {
        s
    } else if s.subrange(0, from.len() as int) == from {
        to + replaced(s.subrange(from.len() as int, s.len() as int), from, to)
    } else {
        seq![s[0]] + replaced(s.subrange(1, s.len() as int), from, to)
    }
}

proof fn lemma_replaced_step(s: Seq<char>, from: Seq<char>, to: Seq<char>, i: int)
    requires
        0 <= i <= s.len(),
        from.len() > 0,
    ensures
        i + from.len() <= s.len() && s.subrange(i, i + from.len()) == from ==> replaced(s.subrange(i, s.len() as int), from, to)
            == to + replaced(s.subrange(i + from.len(), s.len() as int), from, to),
        i < s.len() && !(i + from.len() <= s.len() && s.subrange(i, i + from.len()) == from) ==> replaced(
            s.subrange(i, s.len() as int),
            from,
            to,
        ) == seq![s[i]] + replaced(s.subrange(i + 1, s.len() as int), from, to),
{
    let t = s.subrange(i, s.len() as int);
    if i + from.len() <= s.len() {
        assert(t.subrange(0, from.len() as int) =~= s.subrange(i, i + from.len()));
        assert(t.subrange(from.len() as int, t.len() as int) =~= s.subrange(i + from.len(), s.len() as int));
    }
    if i < s.len() {
        assert(t.subrange(1, t.len() as int) =~= s.subrange(i + 1, s.len() as int));
        if i + from.len() > s.len() {
            assert(replaced(t, from, to) == t);
            let u = s.subrange(i + 1, s.len() as int);
            assert(replaced(u, from, to) == u);
            assert(t =~= seq![s[i]] + u);
        }
    }
}

/// `s` with every occurrence of `from` replaced by `to`.
pub fn replace_all(s: &str, from: &str, to: &str) -> (r: String)
    requires
        from@.len() > 0,
    ensures
        r@ == replaced(s@, from@, to@),
{
    let cs = chars_of(s);
    let fs = chars_of(from);
    let ts = chars_of(to);
    let n = cs.len();
    let mut r = String::new();
    let mut i: usize = 0;
    assert(cs@.subrange(0, n as int) =~= cs@);
    assert(r@ + replaced(cs@, fs@, ts@) =~= replaced(cs@, fs@, ts@));
    while i < n
        invariant
            n == cs@.len(),
            cs@ == s@,
            fs@ == from@,
            ts@ == to@,
            fs@.len() > 0,
            i <= n,
            r@ + replaced(cs@.subrange(i as int, n as int), fs@, ts@) == replaced(cs@, fs@, ts@),
        decreases n - i,
    {
        proof {
            lemma_replaced_step(cs@, fs@, ts@, i as int);
        }
        let hit = fs.len() <= n - i && block_at(&cs, &fs, i);
        if hit {
            let ghost before = r@;
            let mut k: usize = 0;
            while k < ts.len()
                invariant
                    k <= ts@.len(),
                    r@ == before + ts@.subrange(0, k as int),
                decreases ts@.len() - k,
            {
                push_char(&mut r, ts[k]);
                assert(r@ =~= before + ts@.subrange(0, k + 1));
                k += 1;
            }
            assert(ts@.subrange(0, k as int) =~= ts@);
            assert(r@ + replaced(cs@.subrange(i + fs@.len(), n as int), fs@, ts@) =~= before + (ts@ + replaced(
                cs@.subrange(i + fs@.len(), n as int),
                fs@,
                ts@,
            )));
            i += fs.len();
        } else {
            let ghost before = r@;
            push_char(&mut r, cs[i]);
            assert(r@ + replaced(cs@.subrange(i + 1, n as int), fs@, ts@) =~= before + (seq![cs@[i as int]] + replaced(
                cs@.subrange(i + 1, n as int),
                fs@,
                ts@,
            )));
            i += 1;
        }
    }
    assert(cs@.subrange(n as int, n as int) =~= Seq::<char>::empty());
    assert(replaced(Seq::<char>::empty(), fs@, ts@) == Seq::<char>::empty());
    assert(r@ + Seq::<char>::empty() =~= r@);
    r
}

/// `s` with `prefix` taken off its start as many times as it stands there.
pub open spec fn without_prefixes(s: Seq<char>, prefix: Seq<char>) -> Seq<char>
    decreases s.len(),
{
    if prefix.len() > 0 && seq_starts_with(s, prefix) {
        without_prefixes(s.subrange(prefix.len() as int, s.len() as int), prefix)
    } else {
        s
    }
}

/// `s` with every leading repetition of `prefix` removed.
pub fn strip_prefixes(s: &str, prefix: &str) -> (r: String)
    ensures
        r@ == without_prefixes(s@, prefix@),
{
    let cs = chars_of(s);
    let ps = chars_of(prefix);
    let n = cs.len();
    let mut i: usize = 0;
    assert(cs@.subrange(0, n as int) =~= cs@);
    while ps.len() > 0 && ps.len() <= n - i && block_at(&cs, &ps, i)
        invariant
            n == cs@.len(),
            cs@ == s@,
            ps@ == prefix@,
            i <= n,
            without_prefixes(cs@.subrange(i as int, n as int), ps@) == without_prefixes(cs@, ps@),
        decreases n - i,
    {
        let ghost t = cs@.subrange(i as int, n as int);
        assert(t.subrange(0, ps@.len() as int) =~= cs@.subrange(i as int, i + ps@.len()));
        assert(t.subrange(ps@.len() as int, t.len() as int) =~= cs@.subrange(i + ps@.len(), n as int));
        i += ps.len();
    }
    proof {
        let t = cs@.subrange(i as int, n as int);
        if ps@.len() > 0 && ps@.len() <= t.len() {
            assert(t.subrange(0, ps@.len() as int) =~= cs@.subrange(i as int, i + ps@.len()));
        }
    }
    let mut r = String::new();
    let mut k: usize = i;
    while k < n
        invariant
            n == cs@.len(),
            i <= k <= n,
            r@ == cs@.subrange(i as int, k as int),
        decreases n - k,
    {
        push_char(&mut r, cs[k]);
        assert(r@ =~= cs@.subrange(i as int, k + 1));
        k += 1;
    }
    r
}

/// The text after the last `sep` of `s`; all of `s` where `sep` does not occur.
pub open spec fn last_segment(s: Seq<char>, sep: char) -> Seq<char>
    decreases s.len(),
{
    if s.len() == 0 {
        s
    } else if s.last() == sep {
        Seq::empty()
    } else {
        last_segment(s.drop_last(), sep).push(s.last())
    }
}

/// The text after the last `sep` of `s`.
pub fn last_segment_of(s: &str, sep: char) -> (r: String)
    ensures
        r@ == last_segment(s@, sep),
{
    let cs = chars_of(s);
    let mut r = String::new();
    let mut i: usize = 0;
    while i < cs.len()
        invariant
            cs@ == s@,
            i <= cs@.len(),
            r@ == last_segment(cs@.subrange(0, i as int), sep),
        decreases cs@.len() - i,
    {
        let ghost t = cs@.subrange(0, i + 1);
        assert(t.drop_last() =~= cs@.subrange(0, i as int));
        if cs[i] == sep {
            r = String::new();
        } else {
            push_char(&mut r, cs[i]);
        }
        i += 1;
    }
    assert(cs@.subrange(0, i as int) =~= cs@);
    r
}

/// The pieces of `s` between occurrences of `sep`, scanning from `i` with the piece
/// `cur` begun.
pub open spec fn split_from(s: Seq<char>, sep: char, i: int, cur: Seq<char>) -> Seq<Seq<char>>
    decreases s.len() - i,
{
    if i >= s.len() {
        seq![cur]
    } else if s[i] == sep {
        seq![cur] + split_from(s, sep, i + 1, Seq::empty())
    } else {
        split_from(s, sep, i + 1, cur.push(s[i]))
    }
}

/// The pieces of `s` between occurrences of `sep`: one more than there are `sep`s.
pub open spec fn split_on(s: Seq<char>, sep: char) -> Seq<Seq<char>> {
    split_from(s, sep, 0, Seq::empty())
}

/// Splits `s` at every `sep`.
pub fn split_chars(s: &str, sep: char) -> (r: Vec<Vec<char>>)
    ensures
        r@.len() == split_on(s@, sep).len(),
        forall|k: int| 0 <= k < r@.len() ==> #[trigger] r@[k]@ == split_on(s@, sep)[k],
{
    let cs = chars_of(s);
    let mut done: Vec<Vec<char>> = Vec::new();
    let mut cur: Vec<char> = Vec::new();
    let mut i: usize = 0;
    let ghost dv: Seq<Seq<char>> = Seq::empty();
    while i < cs.len()
        invariant
            cs@ == s@,
            i <= cs@.len(),
            dv.len() == done@.len(),
            forall|k: int| 0 <= k < dv.len() ==> #[trigger] done@[k]@ == dv[k],
            dv + split_from(cs@, sep, i as int, cur@) == split_on(cs@, sep),
        decreases cs@.len() - i,
    {
        if cs[i] == sep {
            let ghost c0 = cur@;
            let piece = cur;
            done.push(piece);
            cur = Vec::new();
            proof {
                assert(dv.push(c0) + split_from(cs@, sep, i + 1, Seq::empty()) =~= dv + (seq![c0] + split_from(
                    cs@,
                    sep,
                    i + 1,
                    Seq::empty(),
                )));
                dv = dv.push(c0);
                assert(cur@ =~= Seq::<char>::empty());
            }
        } else {
            cur.push(cs[i]);
        }
        i += 1;
    }
    let ghost c0 = cur@;
    done.push(cur);
    proof {
        assert(dv.push(c0) =~= dv + seq![c0]);
        dv = dv.push(c0);
    }
    done
}

} // verus!

//! Layout of the text shown on the console.
use vstd::prelude::*;
use crate::text::{chars_of, lower_of, lowercase, push_char, split_chars, split_on, trim, trim_of};

verus! {

/// How far the console text is indented.
pub const CONSOLE_LEFT_MARGIN_IN_SPACES: usize = 7;

/// A line without the carriage return that may end it.
pub open spec fn without_cr(line: Seq<char>) -> Seq<char> {
    if line.len() > 0 && line.last() == '\r' {
        line.drop_last()
    } else {
        line
    }
}

/// The lines of a text as `str::lines` gives them: split at line feeds, a final
/// line feed ending the last line rather than starting an empty one, and a
/// carriage return before a line feed dropped.
pub open spec fn lines_of(s: Seq<char>) -> Seq<Seq<char>> {
    let p = split_on(s, '\n');
    let q = if p.len() > 0 && p.last().len() == 0 {
        p.drop_last()
    } else {
        p
    };
    Seq::new(q.len(), |i: int| without_cr(q[i]))
}

/// A line with the margin put before it, unless it is blank.
pub open spec fn indented(line: Seq<char>, margin: nat) -> Seq<char> {
    if trim_of(line).len() == 0 {
        line
    } else {
        Seq::new(margin, |i: int| ' ') + line
    }
}

/// Lines joined with line feeds between them.
pub open spec fn joined(ls: Seq<Seq<char>>) -> Seq<char>
    decreases ls.len(),
{
    if ls.len() == 0 {
        Seq::empty()
    } else if ls.len() == 1 {
        ls[0]
    } else {
        joined(ls.drop_last()) + seq!['\n'] + ls.last()
    }
}

/// The indented lines of a text.
pub open spec fn indented_text(s: Seq<char>, margin: nat) -> Seq<char> {
    let ls = lines_of(s);
    joined(Seq::new(ls.len(), |i: int| indented(ls[i], margin)))
}

/// Puts the console margin before every line of `text` that is not blank.
pub fn prepend_spaces_to_non_empty_lines(text: &str) -> (r: String)
    ensures
        r@ == indented_text(text@, CONSOLE_LEFT_MARGIN_IN_SPACES as nat),
{
    let ghost margin = CONSOLE_LEFT_MARGIN_IN_SPACES as nat;
    let pieces = split_chars(text, '\n');
    let ghost p = split_on(text@, '\n');
    let mut count = pieces.len();
    if count > 0 && pieces[count - 1].len() == 0 {
        count = count - 1;
    }
    let ghost q = if p.len() > 0 && p.last().len() == 0 { p.drop_last() } else { p };
    let ghost ls = lines_of(text@);
    let ghost target = Seq::new(ls.len(), |i: int| indented(ls[i], margin));
    assert(count == q.len());
    let mut out = String::new();
    let mut k: usize = 0;
    assert(target.take(0) =~= Seq::<Seq<char>>::empty());
    while k < count
        invariant
            count == q.len(),
            q.len() <= pieces@.len(),
            pieces@.len() == p.len(),
            forall|j: int| 0 <= j < pieces@.len() ==> #[trigger] pieces@[j]@ == p[j],
            forall|j: int| 0 <= j < q.len() ==> q[j] == p[j],
            ls.len() == q.len(),
            forall|j: int| 0 <= j < ls.len() ==> #[trigger] ls[j] == without_cr(q[j]),
            target.len() == ls.len(),
            forall|j: int| 0 <= j < target.len() ==> #[trigger] target[j] == indented(ls[j], margin),
            margin == CONSOLE_LEFT_MARGIN_IN_SPACES,
            k <= count,
            out@ == joined(target.take(k as int)),
        decreases count - k,
    {
        let piece = &pieces[k];
        let mut n = piece.len();
        if n > 0 && piece[n - 1] == '\r' {
            n = n - 1;
        }
        let mut line = String::new();
        let mut j: usize = 0;
        while j < n
            invariant
                n <= piece@.len(),
                j <= n,
                line@ == piece@.subrange(0, j as int),
            decreases n - j,
        {
            push_char(&mut line, piece[j]);
            assert(line@ =~= piece@.subrange(0, j + 1));
            j += 1;
        }
        assert(line@ =~= without_cr(piece@));
        assert(line@ == ls[k as int]);
        let blank = trim(line.as_str()).unicode_len() == 0;
        let mut entry = String::new();
        if !blank {
            let mut m: usize = 0;
            while m < CONSOLE_LEFT_MARGIN_IN_SPACES
                invariant
                    m <= CONSOLE_LEFT_MARGIN_IN_SPACES,
                    entry@ == Seq::new(m as nat, |i: int| ' '),
                decreases CONSOLE_LEFT_MARGIN_IN_SPACES - m,
            {
                push_char(&mut entry, ' ');
                assert(entry@ =~= Seq::new((m + 1) as nat, |i: int| ' '));
                m += 1;
            }
        }
        entry.append(line.as_str());
        assert(entry@ =~= indented(ls[k as int], margin));
        let ghost before = out@;
        if k > 0 {
            push_char(&mut out, '\n');
        }
        out.append(entry.as_str());
        proof {
            let t1 = target.take(k + 1);
            assert(t1.drop_last() =~= target.take(k as int));
            assert(t1.last() == target[k as int]);
            if k == 0 {
                assert(t1.len() == 1);
                assert(before =~= Seq::<char>::empty());
                assert(out@ =~= t1[0]);
            } else {
                assert(out@ =~= before + seq!['\n'] + t1.last());
            }
        }
        k += 1;
    }
    assert(target.take(k as int) =~= target);
    out
}

/// `s` without double quotes and `@` signs, which a user may type around a keyword
/// or get from the Russian keyboard layout.
pub open spec fn without_marks(s: Seq<char>) -> Seq<char>
    decreases s.len(),
{
    if s.len() == 0 {
        s
    } else if s.last() == '"' || s.last() == '@' {
        without_marks(s.drop_last())
    } else {
        without_marks(s.drop_last()).push(s.last())
    }
}

/// The letters of "info", typed in either keyboard layout.
pub open spec fn is_info_letter(c: char) -> bool {
    c == 'i' || c == 'n' || c == 'f' || c == 'o' || c == 'ш' || c == 'т' || c == 'а' || c == 'щ'
}

/// How many letters of "info" a text holds.
pub open spec fn info_letter_count(s: Seq<char>) -> nat
    decreases s.len(),
{
    if s.len() == 0 {
        0
    } else {
        info_letter_count(s.drop_last()) + if is_info_letter(s.last()) {
            1nat
        } else {
            0nat
        }
    }
}

/// Whether what the user typed instead of a path asks for the program information:
/// once marks are dropped and the text is lowercased, it holds exactly four letters
/// of "info".
pub open spec fn info_request(s: Seq<char>) -> bool {
    info_letter_count(lower_of(without_marks(s))) == 4
}

/// Whether `entered_text` asks for the program information.
pub fn is_info_request(entered_text: &str) -> (r: bool)
    ensures
        r == info_request(entered_text@),
{
    let cs = chars_of(entered_text);
    let mut kept = String::new();
    let mut i: usize = 0;
    while i < cs.len()
        invariant
            cs@ == entered_text@,
            i <= cs@.len(),
            kept@ == without_marks(cs@.subrange(0, i as int)),
        decreases cs@.len() - i,
    {
        assert(cs@.subrange(0, i + 1).drop_last() =~= cs@.subrange(0, i as int));
        if cs[i] != '"' && cs[i] != '@' {
            push_char(&mut kept, cs[i]);
        }
        i += 1;
    }
    assert(cs@.subrange(0, i as int) =~= cs@);
    let lower = chars_of(lowercase(kept.as_str()).as_str());
    let mut count: usize = 0;
    let mut k: usize = 0;
    while k < lower.len()
        invariant
            k <= lower@.len(),
            count == info_letter_count(lower@.subrange(0, k as int)),
            count <= k,
        decreases lower@.len() - k,
    {
        assert(lower@.subrange(0, k + 1).drop_last() =~= lower@.subrange(0, k as int));
        let c = lower[k];
        if c == 'i' || c == 'n' || c == 'f' || c == 'o' || c == 'ш' || c == 'т' || c == 'а' || c == 'щ' {
            count += 1;
        }
        k += 1;
    }
    assert(lower@.subrange(0, k as int) =~= lower@);
    count == 4
}

} // verus!

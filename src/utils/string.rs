use vstd::prelude::*;

use crate::test_id::{join_with, lemma_split_on_never_empty, split_on, split_text, texts_of};

verus! {

/// The text of an optional string.
pub open spec fn opt_text(o: Option<String>) -> Option<Seq<char>> {
    match o {
        Some(s) => Some(s@),
        None => None,
    }
}

/// A line without the carriage return that ended it.
pub open spec fn strip_cr(t: Seq<char>) -> Seq<char> {
    if t.len() > 0 && t.last() == '\r' {
        t.drop_last()
    } else {
        t
    }
}

/// The lines of a text: cut at each newline, a carriage return before the
/// newline dropped, and no empty line after a final newline.
pub open spec fn lines_of(s: Seq<char>) -> Seq<Seq<char>> {
    let pieces = split_on(s, '\n');
    let ended = pieces.drop_last().map_values(|t: Seq<char>| strip_cr(t));
    if pieces.last().len() == 0 {
        ended
    } else {
        ended.push(pieces.last())
    }
}

/// `prefix` put before each line of `input`; a final newline is kept, and
/// the empty text gives `prefix` alone.
pub open spec fn indented(prefix: Seq<char>, input: Seq<char>) -> Seq<char> {
    if input.len() == 0 {
        prefix
    } else {
        join_with(lines_of(input).map_values(|l: Seq<char>| prefix + l), '\n') + (if input.last()
            == '\n' {
            seq!['\n']
        } else {
            Seq::<char>::empty()
        })
    }
}

fn strip_carriage_return(t: &String) -> (r: String)
    ensures
        r@ == strip_cr(t@),
{
    let n = t.as_str().unicode_len();
    if n > 0 && t.as_str().get_char(n - 1) == '\r' {
        String::from_str(t.as_str().substring_char(0, n - 1))
    } else {
        t.clone()
    }
}

/// The lines of `input`, as `lines_of` gives them.
pub fn text_lines(input: &str) -> (r: Vec<String>)
    ensures
        texts_of(r@) == lines_of(input@),
{
    let pieces = split_text(input, '\n');
    proof {
        lemma_split_on_never_empty(input@, '\n');
    }
    let ghost p = texts_of(pieces@);
    let n = pieces.len();
    let mut lines: Vec<String> = Vec::new();
    let mut i: usize = 0;
    while i + 1 < n
        invariant
            p == texts_of(pieces@),
            p == split_on(input@, '\n'),
            n == pieces@.len(),
            n >= 1,
            i < n,
            texts_of(lines@) =~= p.subrange(0, i as int).map_values(|t: Seq<char>| strip_cr(t)),
        decreases n - i,
    {
        let ghost before = texts_of(lines@);
        lines.push(strip_carriage_return(&pieces[i]));
        assert(texts_of(lines@) =~= before.push(strip_cr(p[i as int])));
        assert(p.subrange(0, i + 1).map_values(|t: Seq<char>| strip_cr(t)) =~= p.subrange(
            0,
            i as int,
        ).map_values(|t: Seq<char>| strip_cr(t)).push(strip_cr(p[i as int])));
        i = i + 1;
    }
    assert(p.subrange(0, i as int) =~= p.drop_last());
    if pieces[n - 1].as_str().unicode_len() > 0 {
        lines.push(pieces[n - 1].clone());
    }
    lines
}

proof fn lemma_join_step(segs: Seq<Seq<char>>, i: int)
    requires
        0 < i < segs.len(),
    ensures
        join_with(segs.subrange(0, i + 1), '\n') == join_with(segs.subrange(0, i), '\n') + seq![
            '\n',
        ] + segs[i],
{
    assert(segs.subrange(0, i + 1).drop_last() =~= segs.subrange(0, i));
}

fn decorate_lines(prefix: &str, input: &str) -> (r: String)
    ensures
        r@ == indented(prefix@, input@),
{
    if input.unicode_len() == 0 {
        return String::from_str(prefix);
    }
    let lines = text_lines(input);
    let ghost decorated = lines_of(input@).map_values(|l: Seq<char>| prefix@ + l);
    let mut output = String::new();
    let mut i: usize = 0;
    while i < lines.len()
        invariant
            texts_of(lines@) == lines_of(input@),
            decorated == lines_of(input@).map_values(|l: Seq<char>| prefix@ + l),
            i <= lines@.len(),
            output@ == join_with(decorated.subrange(0, i as int), '\n'),
        decreases lines@.len() - i,
    {
        proof {
            reveal_strlit("\n");
        }
        assert(decorated[i as int] == prefix@ + lines@[i as int]@) by {
            assert(texts_of(lines@)[i as int] == lines@[i as int]@);
        }
        if i > 0 {
            output.append("\n");
        }
        output.append(prefix);
        output.append(lines[i].as_str());
        proof {
            if i == 0 {
                assert(output@ =~= decorated.subrange(0, 1)[0]);
            } else {
                lemma_join_step(decorated, i as int);
                assert(output@ =~= join_with(decorated.subrange(0, i as int), '\n') + seq!['\n']
                    + decorated[i as int]);
            }
        }
        i = i + 1;
    }
    assert(decorated.subrange(0, i as int) =~= decorated);
    let n = input.unicode_len();
    proof {
        reveal_strlit("\n");
    }
    if input.get_char(n - 1) == '\n' {
        output.append("\n");
    }
    output
}

/// Puts `prefix` before every line of `input`.
pub fn indent_with(prefix: &str, input: &str) -> (r: String)
    ensures
        r@ == indented(prefix@, input@),
{
    decorate_lines(prefix, input)
}

/// Indents every line of `input` by `indent_level` spaces.
pub fn indent_by(indent_level: usize, input: &str) -> (r: String)
    ensures
        r@ == indented(Seq::new(indent_level as nat, |i: int| ' '), input@),
{
    let mut prefix = String::new();
    let mut i: usize = 0;
    while i < indent_level
        invariant
            i <= indent_level,
            prefix@ =~= Seq::new(i as nat, |j: int| ' '),
        decreases indent_level - i,
    {
        proof {
            reveal_strlit(" ");
        }
        prefix.append(" ");
        i = i + 1;
    }
    indent_with(prefix.as_str(), input)
}

/// The decimal digit characters, by value.
pub open spec fn digit_chars() -> Seq<char> {
    seq!['0', '1', '2', '3', '4', '5', '6', '7', '8', '9']
}

pub open spec fn digits_of(m: nat) -> Seq<char>
    decreases m,
{
    if m < 10 {
        seq![digit_chars()[m as int]]
    } else {
        digits_of(m / 10) + seq![digit_chars()[(m % 10) as int]]
    }
}

/// The decimal numeral of `n`, with a minus sign when it is negative.
pub open spec fn decimal_of(n: int) -> Seq<char> {
    if n < 0 {
        seq!['-'] + digits_of((-n) as nat)
    } else {
        digits_of(n as nat)
    }
}

fn digit_text(d: u64) -> (r: &'static str)
    requires
        d < 10,
    ensures
        r@ == seq![digit_chars()[d as int]],
{
    proof {
        reveal_strlit("0");
        reveal_strlit("1");
        reveal_strlit("2");
        reveal_strlit("3");
        reveal_strlit("4");
        reveal_strlit("5");
        reveal_strlit("6");
        reveal_strlit("7");
        reveal_strlit("8");
        reveal_strlit("9");
    }
    match d {
        0 => "0",
        1 => "1",
        2 => "2",
        3 => "3",
        4 => "4",
        5 => "5",
        6 => "6",
        7 => "7",
        8 => "8",
        _ => "9",
    }
}

/// The decimal numeral of `m`.
pub fn natural_text(m: u64) -> (r: String)
    ensures
        r@ == digits_of(m as nat),
{
    let mut m: u64 = m;
    let ghost total = m as nat;
    let mut out = String::new();
    while m >= 10
        invariant
            digits_of(total) == digits_of(m as nat) + out@,
        decreases m,
    {
        let mut next = String::from_str(digit_text(m % 10));
        next.append(out.as_str());
        assert(digits_of(m as nat) == digits_of((m / 10) as nat) + seq![digit_chars()[(m % 10) as int]]);
        assert(digits_of(total) =~= digits_of((m / 10) as nat) + next@);
        out = next;
        m = m / 10;
    }
    let mut r = String::from_str(digit_text(m));
    r.append(out.as_str());
    assert(r@ =~= digits_of(total));
    r
}

/// The decimal numeral of `n`.
pub fn decimal_text(n: i64) -> (r: String)
    requires
        n > i64::MIN,
    ensures
        r@ == decimal_of(n as int),
{
    let m: u64 = if n < 0 {
        (-n) as u64
    } else {
        n as u64
    };
    let r = natural_text(m);
    if n < 0 {
        proof {
            reveal_strlit("-");
        }
        let mut signed = String::from_str("-");
        signed.append(r.as_str());
        assert(signed@ =~= decimal_of(n as int));
        signed
    } else {
        r
    }
}

} // verus!

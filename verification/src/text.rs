//! Text of line-based documents and messages: lines, whitespace-separated fields,
//! unsigned decimal numbers and their text.
use vstd::prelude::*;

use vstd::string::StringExecFns;

verus! {

broadcast use vstd::std_specs::vec::group_vec_axioms;

/// Whether `c` has the Unicode `White_Space` property, which separates fields.
pub open spec fn is_space(c: char) -> bool {
    let u = c as u32;
    ||| 9 <= u <= 13
    ||| u == 32
    ||| u == 0x85
    ||| u == 0xA0
    ||| u == 0x1680
    ||| 0x2000 <= u <= 0x200A
    ||| u == 0x2028
    ||| u == 0x2029
    ||| u == 0x202F
    ||| u == 0x205F
    ||| u == 0x3000
}

/// Whether `c` separates fields within a line.
pub fn is_space_char(c: char) -> (r: bool)
    ensures
        r == is_space(c),
{
    let u = c as u32;
    (9 <= u && u <= 13) || u == 32 || u == 0x85 || u == 0xA0 || u == 0x1680 || (0x2000 <= u && u
        <= 0x200A) || u == 0x2028 || u == 0x2029 || u == 0x202F || u == 0x205F || u == 0x3000
}

/// The pieces of `text` between line feeds; there is one more piece than
/// there are line feeds.
pub open spec fn pieces(text: Seq<char>) -> Seq<Seq<char>>
    decreases text.len(),
{
    if text.len() == 0 {
        seq![Seq::empty()]
    } else {
        let before = pieces(text.drop_last());
        if text.last() == '\n' {
            before.push(Seq::empty())
        } else {
            before.update(before.len() - 1, before.last().push(text.last()))
        }
    }
}

/// The lines of `text`: its pieces, where a final line feed ends the last
/// line rather than starting an empty one.
pub open spec fn lines(text: Seq<char>) -> Seq<Seq<char>> {
    let p = pieces(text);
    if p.last().len() == 0 {
        p.drop_last()
    } else {
        p
    }
}

/// The fields of `line`: its maximal runs of non-space characters, in order.
pub open spec fn fields(line: Seq<char>) -> Seq<Seq<char>>
    decreases line.len(),
{
    if line.len() == 0 {
        Seq::empty()
    } else {
        let before = fields(line.drop_last());
        let c = line.last();
        if is_space(c) {
            before
        } else if line.len() > 1 && !is_space(line[line.len() - 2]) {
            before.update(before.len() - 1, before.last().push(c))
        } else {
            before.push(seq![c])
        }
    }
}

/// The texts held by a sequence of character vectors.
pub open spec fn texts(v: Seq<Vec<char>>) -> Seq<Seq<char>> {
    v.map_values(|t: Vec<char>| t@)
}

proof fn lemma_pieces_nonempty(text: Seq<char>)
    ensures
        pieces(text).len() >= 1,
    decreases text.len(),
{
    if text.len() > 0 {
        lemma_pieces_nonempty(text.drop_last());
    }
}

/// The characters of `text`, in order.
pub fn chars_of(text: &str) -> (r: Vec<char>)
    ensures
        r@ == text@,
{
    broadcast use vstd::string::axiom_spec_iter;

    let mut out: Vec<char> = Vec::new();
    for c in it: text.chars()
        invariant
            out@ == it.seq().take(it.index() as int),
            it.seq() == text@,
    {
        out.push(c);
    }
    out
}

/// Splits `text` into its lines.
pub fn split_lines(text: &Vec<char>) -> (r: Vec<Vec<char>>)
    ensures
        texts(r@) == lines(text@),
        r@.len() <= text@.len(),
{
    let mut done: Vec<Vec<char>> = Vec::new();
    let mut current: Vec<char> = Vec::new();
    let mut i: usize = 0;
    while i < text.len()
        invariant
            i <= text@.len(),
            pieces(text@.take(i as int)) == texts(done@).push(current@),
            done@.len() <= i,
            current@.len() > 0 ==> done@.len() < i,
        decreases text@.len() - i,
    {
        proof {
            lemma_pieces_nonempty(text@.take(i as int));
            assert(text@.take(i as int + 1).drop_last() =~= text@.take(i as int));
        }
        if text[i] == '\n' {
            let finished = current;
            current = Vec::new();
            done.push(finished);
            proof {
                assert(texts(done@).push(current@) =~= pieces(text@.take(i as int)).push(Seq::empty()));
            }
        } else {
            current.push(text[i]);
            proof {
                assert(texts(done@).push(current@) =~= pieces(text@.take(i as int)).update(
                    texts(done@).len() as int,
                    pieces(text@.take(i as int)).last().push(text@[i as int]),
                ));
            }
        }
        i += 1;
    }
    proof {
        assert(text@.take(i as int) =~= text@);
    }
    if current.len() > 0 {
        done.push(current);
        proof {
            assert(texts(done@) =~= pieces(text@));
        }
    } else {
        proof {
            assert(texts(done@) =~= pieces(text@).drop_last());
        }
    }
    done
}

/// Splits `line` into its fields.
pub fn split_fields(line: &Vec<char>) -> (r: Vec<Vec<char>>)
    ensures
        texts(r@) == fields(line@),
{
    let mut done: Vec<Vec<char>> = Vec::new();
    let mut current: Vec<char> = Vec::new();
    let mut i: usize = 0;
    while i < line.len()
        invariant
            i <= line@.len(),
            fields(line@.take(i as int)) == if current@.len() > 0 {
                texts(done@).push(current@)
            } else {
                texts(done@)
            },
            current@.len() > 0 <==> (i > 0 && !is_space(line@[i - 1])),
        decreases line@.len() - i,
    {
        let c = line[i];
        let ghost prefix = line@.take(i as int + 1);
        proof {
            assert(prefix.drop_last() =~= line@.take(i as int));
            assert(prefix.last() == c);
            if i > 0 {
                assert(prefix[prefix.len() - 2] == line@[i - 1]);
            }
        }
        if is_space_char(c) {
            if current.len() > 0 {
                let finished = current;
                current = Vec::new();
                done.push(finished);
                proof {
                    assert(texts(done@) =~= fields(line@.take(i as int)));
                }
            }
        } else {
            current.push(c);
            proof {
                if current@.len() > 1 {
                    assert(texts(done@).push(current@) =~= fields(line@.take(i as int)).update(
                        texts(done@).len() as int,
                        fields(line@.take(i as int)).last().push(c),
                    ));
                } else {
                    assert(current@ =~= seq![c]);
                    assert(texts(done@).push(current@) =~= fields(line@.take(i as int)).push(seq![c]));
                }
            }
        }
        i += 1;
    }
    proof {
        assert(line@.take(i as int) =~= line@);
    }
    if current.len() > 0 {
        done.push(current);
    }
    done
}

/// Whether `c` is an ASCII decimal digit.
pub open spec fn is_digit(c: char) -> bool {
    '0' <= c <= '9'
}

/// The value of the ASCII digit `c`.
pub open spec fn digit_value(c: char) -> nat {
    (c as u32 - 48) as nat
}

/// The value of a string of decimal digits, most significant first.
pub open spec fn digits_value(d: Seq<char>) -> nat
    decreases d.len(),
{
    if d.len() == 0 {
        0
    } else {
        digits_value(d.drop_last()) * 10 + digit_value(d.last())
    }
}

/// The digits of an unsigned number's text: the text without one leading `+`.
pub open spec fn unsigned_digits(t: Seq<char>) -> Seq<char> {
    if t.len() > 0 && t[0] == '+' {
        t.drop_first()
    } else {
        t
    }
}

/// The unsigned number written by `t`, if it is at most `max`: an optional
/// `+` followed by one or more decimal digits.
pub open spec fn parse_unsigned(t: Seq<char>, max: nat) -> Option<nat> {
    let d = unsigned_digits(t);
    if d.len() > 0 && (forall|i: int| 0 <= i < d.len() ==> #[trigger] is_digit(d[i])) && digits_value(d)
        <= max {
        Some(digits_value(d))
    } else {
        None
    }
}

proof fn lemma_prefix_value(d: Seq<char>, k: int)
    requires
        0 <= k <= d.len(),
    ensures
        digits_value(d.take(k)) <= digits_value(d),
    decreases d.len(),
{
    if k == d.len() {
        assert(d.take(k) =~= d);
    } else {
        lemma_prefix_value(d.drop_last(), k);
        assert(d.drop_last().take(k) =~= d.take(k));
    }
}

/// Reads `t` as an unsigned decimal number of at most `max`.
pub fn parse_unsigned_text(t: &Vec<char>, max: u64) -> (r: Option<u64>)
    ensures
        parse_unsigned(t@, max as nat) == match r {
            Some(v) => Some(v as nat),
            None => None::<nat>,
        },
{
    let ghost d = unsigned_digits(t@);
    let mut start: usize = 0;
    if t.len() > 0 && t[0] == '+' {
        start = 1;
    }
    proof {
        assert(d =~= t@.skip(start as int));
    }
    if start >= t.len() {
        return None;
    }
    let mut value: u64 = 0;
    let mut i: usize = start;
    while i < t.len()
        invariant
            start <= i <= t@.len(),
            d == unsigned_digits(t@),
            d =~= t@.skip(start as int),
            value as nat == digits_value(d.take(i - start)),
            value <= max,
            forall|k: int| 0 <= k < i - start ==> #[trigger] is_digit(d[k]),
        decreases t@.len() - i,
    {
        let c = t[i];
        proof {
            assert(d[i - start] == c);
            assert(d.take(i - start + 1).drop_last() =~= d.take(i - start));
            assert(d.take(i - start + 1).last() == c);
        }
        if !('0' <= c && c <= '9') {
            proof {
                assert(!is_digit(d[i - start]));
            }
            return None;
        }
        let digit = (c as u32 - 48) as u64;
        if digit > max || value > (max - digit) / 10 {
            proof {
                assert(value * 10 + digit > max) by (nonlinear_arith)
                    requires
                        digit > max || value > (max - digit) / 10,
                        digit <= max ==> max - digit >= 0,
                ;
                lemma_prefix_value(d, i - start + 1);
            }
            return None;
        }
        assert(value * 10 + digit <= max) by (nonlinear_arith)
            requires
                digit <= max,
                value <= (max - digit) / 10,
        ;
        value = value * 10 + digit;
        i += 1;
    }
    proof {
        assert(d.take(i - start) =~= d);
    }
    Some(value)
}

/// The character of decimal digit `d`.
pub open spec fn digit_char(d: nat) -> char {
    if d == 0 {
        '0'
    } else if d == 1 {
        '1'
    } else if d == 2 {
        '2'
    } else if d == 3 {
        '3'
    } else if d == 4 {
        '4'
    } else if d == 5 {
        '5'
    } else if d == 6 {
        '6'
    } else if d == 7 {
        '7'
    } else if d == 8 {
        '8'
    } else {
        '9'
    }
}

/// The decimal text of `n`, without leading zeros.
pub open spec fn decimal(n: nat) -> Seq<char>
    decreases n,
{
    (if n >= 10 {
        decimal(n / 10)
    } else {
        Seq::empty()
    }) + seq![digit_char(n % 10)]
}

fn digit_text(d: u64) -> (r: &'static str)
    requires
        d < 10,
    ensures
        r@ == seq![digit_char(d as nat)],
{
    if d == 0 {
        proof { reveal_strlit("0"); }
        "0"
    } else if d == 1 {
        proof { reveal_strlit("1"); }
        "1"
    } else if d == 2 {
        proof { reveal_strlit("2"); }
        "2"
    } else if d == 3 {
        proof { reveal_strlit("3"); }
        "3"
    } else if d == 4 {
        proof { reveal_strlit("4"); }
        "4"
    } else if d == 5 {
        proof { reveal_strlit("5"); }
        "5"
    } else if d == 6 {
        proof { reveal_strlit("6"); }
        "6"
    } else if d == 7 {
        proof { reveal_strlit("7"); }
        "7"
    } else if d == 8 {
        proof { reveal_strlit("8"); }
        "8"
    } else {
        proof { reveal_strlit("9"); }
        "9"
    }
}

/// The decimal text of `n`.
pub fn decimal_text(n: u64) -> (r: String)
    ensures
        r@ == decimal(n as nat),
    decreases n,
{
    let head = if n >= 10 {
        decimal_text(n / 10)
    } else {
        String::new()
    };
    head.concat(digit_text(n % 10))
}

/// `FromIterator<&char>` for `String`: a string of the same characters.
#[verifier::external_body]
pub(crate) fn text_of(chars: &Vec<char>) -> (r: String)
    ensures
        r@ == chars@,
{
    chars.iter().collect()
}

/// Whether the characters of `t` spell `word`.
pub fn spells(t: &Vec<char>, word: &str) -> (r: bool)
    ensures
        r == (t@ == word@),
{
    let text = text_of(t);
    let expected = word.to_owned();
    text == expected
}

/// The debug notation of a string: `format!("{:?}", text)` on a `str`,
/// which quotes `text` and escapes its special characters.
pub uninterp spec fn debug_quoted(text: Seq<char>) -> Seq<char>;

/// `text` in debug notation, as `format!("{:?}", text)` writes it; the
/// escaping rules are left to the name `debug_quoted`.
#[verifier::external_body]
pub(crate) fn quoted(text: &str) -> (r: String)
    ensures
        r@ == debug_quoted(text@),
{
    format!("{:?}", text)
}

/// Lines each ended by a line feed, one after another.
pub open spec fn joined(ls: Seq<Seq<char>>) -> Seq<char>
    decreases ls.len(),
{
    if ls.len() == 0 {
        Seq::empty()
    } else {
        joined(ls.drop_last()) + ls.last() + seq!['\n']
    }
}

/// Fields separated by single spaces.
pub open spec fn spaced(ts: Seq<Seq<char>>) -> Seq<char>
    decreases ts.len(),
{
    if ts.len() <= 1 {
        if ts.len() == 0 {
            Seq::empty()
        } else {
            ts[0]
        }
    } else {
        spaced(ts.drop_last()) + seq![' '] + ts.last()
    }
}

/// Text that can stand as one field: nonempty, without separators.
pub open spec fn is_field(t: Seq<char>) -> bool {
    t.len() > 0 && forall|i: int| 0 <= i < t.len() ==> !is_space(#[trigger] t[i])
}

proof fn lemma_pieces_extend(t: Seq<char>, u: Seq<char>)
    requires
        forall|i: int| 0 <= i < u.len() ==> #[trigger] u[i] != '\n',
    ensures
        pieces(t + u) == pieces(t).update(pieces(t).len() - 1, pieces(t).last() + u),
    decreases u.len(),
{
    lemma_pieces_nonempty(t);
    if u.len() == 0 {
        assert(t + u =~= t);
        assert(pieces(t).last() + u =~= pieces(t).last());
        assert(pieces(t).update(pieces(t).len() - 1, pieces(t).last()) =~= pieces(t));
    } else {
        let v = u.drop_last();
        lemma_pieces_extend(t, v);
        let p = pieces(t);
        let q = pieces(t + v);
        assert((t + u).drop_last() =~= t + v);
        assert((t + u).last() == u.last());
        assert(u[u.len() - 1] != '\n');
        assert(q == p.update(p.len() - 1, p.last() + v));
        assert(q.last() == p.last() + v);
        assert(pieces(t + u) == q.update(q.len() - 1, q.last().push(u.last())));
        assert(p.last() + v + seq![u.last()] =~= p.last() + u);
        assert((p.last() + v).push(u.last()) =~= p.last() + u);
        assert(pieces(t + u) =~= p.update(p.len() - 1, p.last() + u));
    }
}

/// Lines without line feeds, each ended by one, are the lines of the text.
pub proof fn lemma_lines_of_joined(ls: Seq<Seq<char>>)
    requires
        forall|i: int, j: int| 0 <= i < ls.len() && 0 <= j < ls[i].len() ==> #[trigger] ls[i][j] != '\n',
    ensures
        pieces(joined(ls)) == ls.push(Seq::empty()),
        lines(joined(ls)) == ls,
    decreases ls.len(),
{
    if ls.len() == 0 {
        assert(pieces(joined(ls)) =~= ls.push(Seq::empty()));
    } else {
        let d = ls.drop_last();
        assert forall|i: int, j: int| 0 <= i < d.len() && 0 <= j < d[i].len() implies #[trigger] d[i][j]
            != '\n' by {
            assert(d[i] == ls[i]);
        }
        lemma_lines_of_joined(d);
        let l = ls.last();
        assert forall|j: int| 0 <= j < l.len() implies #[trigger] l[j] != '\n' by {
            assert(ls[ls.len() - 1][j] != '\n');
        }
        lemma_pieces_extend(joined(d), l);
        let with_line = joined(d) + l;
        assert((with_line + seq!['\n']).drop_last() =~= with_line);
        assert(joined(ls) == with_line + seq!['\n']);
        assert(pieces(joined(ls)) =~= ls.push(Seq::empty()));
    }
    assert(ls.push(Seq::empty()).drop_last() =~= ls);
}

proof fn lemma_fields_space(u: Seq<char>)
    ensures
        fields(u + seq![' ']) == fields(u),
{
    assert((u + seq![' ']).drop_last() =~= u);
}

proof fn lemma_fields_word(u: Seq<char>, w: Seq<char>)
    requires
        u.len() == 0 || is_space(u.last()),
        is_field(w),
    ensures
        fields(u + w) == fields(u).push(w),
    decreases w.len(),
{
    let t = u + w;
    assert(t.drop_last() =~= u + w.drop_last());
    assert(t.last() == w.last());
    assert(!is_space(w[w.len() - 1]));
    if w.len() == 1 {
        assert(t.len() > 1 ==> t[t.len() - 2] == u.last());
        assert(seq![w.last()] =~= w);
        assert(u + w.drop_last() =~= u);
    } else {
        let v = w.drop_last();
        assert forall|i: int| 0 <= i < v.len() implies !is_space(#[trigger] v[i]) by {
            assert(v[i] == w[i]);
        }
        lemma_fields_word(u, v);
        assert(t[t.len() - 2] == w[w.len() - 2]);
        assert(!is_space(w[w.len() - 2]));
        assert(v.push(w.last()) =~= w);
        assert(fields(u).push(v).update(fields(u).len() as int, v.push(w.last())) =~= fields(u).push(w));
    }
}

/// Fields joined by single spaces are split back into the same fields.
pub proof fn lemma_fields_of_spaced(ts: Seq<Seq<char>>)
    requires
        forall|i: int| 0 <= i < ts.len() ==> is_field(#[trigger] ts[i]),
    ensures
        fields(spaced(ts)) == ts,
    decreases ts.len(),
{
    if ts.len() == 0 {
        assert(fields(spaced(ts)) =~= ts);
    } else if ts.len() == 1 {
        assert(is_field(ts[0]));
        lemma_fields_word(Seq::empty(), ts[0]);
        assert(Seq::<char>::empty() + ts[0] =~= ts[0]);
        assert(fields(Seq::<char>::empty()).push(ts[0]) =~= ts);
    } else {
        let d = ts.drop_last();
        assert forall|i: int| 0 <= i < d.len() implies is_field(#[trigger] d[i]) by {
            assert(d[i] == ts[i]);
        }
        lemma_fields_of_spaced(d);
        lemma_fields_space(spaced(d));
        assert(is_field(ts[ts.len() - 1]));
        lemma_fields_word(spaced(d) + seq![' '], ts.last());
        assert(ts.drop_last().push(ts.last()) =~= ts);
    }
}

/// A separated text holds no line feed.
pub proof fn lemma_spaced_one_line(ts: Seq<Seq<char>>)
    requires
        forall|i: int| 0 <= i < ts.len() ==> is_field(#[trigger] ts[i]),
    ensures
        forall|j: int| 0 <= j < spaced(ts).len() ==> #[trigger] spaced(ts)[j] != '\n',
    decreases ts.len(),
{
    if ts.len() == 1 {
        assert(is_field(ts[0]));
        assert forall|j: int| 0 <= j < spaced(ts).len() implies #[trigger] spaced(ts)[j] != '\n' by {
            assert(!is_space(ts[0][j]));
        }
    } else if ts.len() > 1 {
        let d = ts.drop_last();
        assert forall|i: int| 0 <= i < d.len() implies is_field(#[trigger] d[i]) by {
            assert(d[i] == ts[i]);
        }
        lemma_spaced_one_line(d);
        let l = ts.last();
        assert(is_field(ts[ts.len() - 1]));
        assert forall|j: int| 0 <= j < spaced(ts).len() implies #[trigger] spaced(ts)[j] != '\n' by {
            let a = spaced(d).len();
            if j < a {
                assert(spaced(ts)[j] == spaced(d)[j]);
            } else if j > a {
                assert(spaced(ts)[j] == l[j - a - 1]);
                assert(!is_space(l[j - a - 1]));
            }
        }
    }
}

/// The decimal text of a number is a field of digits that reads back as the
/// number.
pub proof fn lemma_decimal_reads_back(n: nat, max: nat)
    requires
        n <= max,
    ensures
        is_field(decimal(n)),
        forall|i: int| 0 <= i < decimal(n).len() ==> #[trigger] is_digit(decimal(n)[i]),
        parse_unsigned(decimal(n), max) == Some(n),
    decreases n,
{
    let d = decimal(n);
    let last = digit_char(n % 10);
    assert(digit_value(last) == n % 10);
    assert(is_digit(last));
    if n >= 10 {
        lemma_decimal_reads_back(n / 10, max);
        let head = decimal(n / 10);
        assert(d.drop_last() =~= head);
        assert(is_digit(head[0]));
        assert(unsigned_digits(head) == head);
        assert(digits_value(head) == n / 10);
        assert forall|i: int| 0 <= i < d.len() implies #[trigger] is_digit(d[i]) by {
            if i < head.len() {
                assert(d[i] == head[i]);
            }
        }
        assert(head[0] != '+');
        assert(d[0] == head[0]);
    } else {
        assert(d =~= seq![last]);
        assert(d.drop_last() =~= Seq::<char>::empty());
    }
    assert(is_digit(d[0]));
    assert(unsigned_digits(d) == d);
    assert(d.last() == last);
    assert(n == (n / 10) * 10 + n % 10) by (nonlinear_arith);
    if n < 10 {
        assert(n % 10 == n);
        assert(d.drop_last() =~= Seq::<char>::empty());
        assert(digits_value(d) == digits_value(d.drop_last()) * 10 + digit_value(d.last()));
    } else {
        assert(d.drop_last() =~= decimal(n / 10));
        assert(digits_value(d) == digits_value(d.drop_last()) * 10 + digit_value(d.last()));
    }
    assert(digits_value(d) == n);
    assert forall|i: int| 0 <= i < d.len() implies !is_space(#[trigger] d[i]) by {
        assert(is_digit(d[i]));
    }
}

/// The decimal text of an integer, with a leading minus when negative.
pub open spec fn signed_decimal(n: int) -> Seq<char> {
    if n < 0 {
        seq!['-'] + decimal((-n) as nat)
    } else {
        decimal(n as nat)
    }
}

/// The decimal text of `n`, with a leading minus when negative.
pub fn signed_decimal_text(n: i32) -> (r: String)
    ensures
        r@ == signed_decimal(n as int),
{
    if n < 0 {
        let magnitude = (0i64 - n as i64) as u64;
        proof {
            reveal_strlit("-");
        }
        "-".to_owned().concat(decimal_text(magnitude).as_str())
    } else {
        decimal_text(n as u64)
    }
}

} // verus!

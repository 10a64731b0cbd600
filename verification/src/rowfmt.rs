//! The tabular store format: rows of double-quoted, comma-separated fields,
//! one row per line. Serialization is defined by spec functions, and a
//! parser (also given as spec functions) is proved to invert it, so a store
//! re-read as the same format yields the fields that were written.

use vstd::prelude::*;

verus! {

/// A field body with every `"` doubled.
pub open spec fn escape_quotes(s: Seq<char>) -> Seq<char>
    decreases s.len(),
{
    if s.len() == 0 {
        Seq::empty()
    } else {
        let head = if s[0] == '"' {
            seq!['"', '"']
        } else {
            seq![s[0]]
        };
        head + escape_quotes(s.drop_first())
    }
}

/// A field as it stands in a row: escaped and wrapped in double quotes.
pub open spec fn quoted(s: Seq<char>) -> Seq<char> {
    seq!['"'] + escape_quotes(s) + seq!['"']
}

/// A row: quoted fields joined by commas, ended by a newline.
pub open spec fn row_chars(fields: Seq<Seq<char>>) -> Seq<char>
    decreases fields.len(),
{
    if fields.len() == 0 {
        seq!['\n']
    } else if fields.len() == 1 {
        quoted(fields[0]) + seq!['\n']
    } else {
        quoted(fields[0]) + seq![','] + row_chars(fields.drop_first())
    }
}

/// A sequence of rows, one after the other.
pub open spec fn rows_chars(rows: Seq<Seq<Seq<char>>>) -> Seq<char>
    decreases rows.len(),
{
    if rows.len() == 0 {
        Seq::empty()
    } else {
        row_chars(rows[0]) + rows_chars(rows.drop_first())
    }
}

/// The decimal digits of an 8-bit value, most significant first.
pub open spec fn u8_decimal(n: u8) -> Seq<char>
    decreases n,
{
    if n < 10 {
        seq![digit_char(n)]
    } else {
        u8_decimal(n / 10).push(digit_char(n % 10))
    }
}

pub open spec fn digit_char(d: u8) -> char {
    ((0x30 + (d as u32)) as u8) as char
}

/// Escaping distributes over concatenation.
pub proof fn lemma_escape_append(a: Seq<char>, b: Seq<char>)
    ensures
        escape_quotes(a + b) == escape_quotes(a) + escape_quotes(b),
    decreases a.len(),
{
    if a.len() == 0 {
        assert(a + b =~= b);
        assert(escape_quotes(a) + escape_quotes(b) =~= escape_quotes(b));
    } else {
        assert((a + b).drop_first() =~= a.drop_first() + b);
        lemma_escape_append(a.drop_first(), b);
        assert((a + b)[0] == a[0]);
        let head = if a[0] == '"' {
            seq!['"', '"']
        } else {
            seq![a[0]]
        };
        assert(escape_quotes(a + b) == head + (escape_quotes(a.drop_first()) + escape_quotes(b)));
        assert(head + (escape_quotes(a.drop_first()) + escape_quotes(b)) =~= (head + escape_quotes(
            a.drop_first(),
        )) + escape_quotes(b));
    }
}

/// Escaping a single character yields its doubled or plain form.
pub proof fn lemma_escape_single(c: char)
    ensures
        escape_quotes(seq![c]) == (if c == '"' {
            seq!['"', '"']
        } else {
            seq![c]
        }),
{
    let s = seq![c];
    assert(s.drop_first() =~= Seq::<char>::empty());
    assert(escape_quotes(s.drop_first()) == Seq::<char>::empty());
    assert(escape_quotes(s) =~= (if c == '"' {
        seq!['"', '"']
    } else {
        seq![c]
    }));
}

/// Appends `quoted(f@)` to `out`.
pub fn push_quoted(out: &mut Vec<char>, f: &Vec<char>)
    ensures
        final(out)@ == old(out)@ + quoted(f@),
{
    let ghost base = out@;
    out.push('"');
    let mut i: usize = 0;
    while i < f.len()
        invariant
            i <= f@.len(),
            out@ == base + seq!['"'] + escape_quotes(f@.take(i as int)),
        decreases f@.len() - i,
    {
        let c = f[i];
        if c == '"' {
            out.push('"');
            out.push('"');
        } else {
            out.push(c);
        }
        i = i + 1;
        proof {
            let t = f@.take(i as int);
            assert(t =~= f@.take(i as int - 1) + seq![f@[i as int - 1]]);
            lemma_escape_append(f@.take(i as int - 1), seq![f@[i as int - 1]]);
            lemma_escape_single(f@[i as int - 1]);
            assert(out@ =~= base + seq!['"'] + escape_quotes(t));
        }
    }
    proof {
        assert(f@.take(f@.len() as int) =~= f@);
    }
    out.push('"');
    proof {
        assert(out@ =~= base + quoted(f@));
    }
}

/// Appends the digits of `n` to `out`.
pub fn push_u8_decimal(out: &mut Vec<char>, n: u8)
    ensures
        final(out)@ == old(out)@ + u8_decimal(n),
{
    let ghost base = out@;
    if n >= 100 {
        out.push((0x30 + n / 100) as char);
        out.push((0x30 + (n / 10) % 10) as char);
        out.push((0x30 + n % 10) as char);
        proof {
            assert((n / 10) / 10 == n / 100) by (bit_vector);
            assert(n / 10 >= 10) by (bit_vector)
                requires
                    n >= 100,
            ;
            assert(u8_decimal(n) == u8_decimal(n / 10).push(digit_char(n % 10)));
            assert(u8_decimal(n / 10) == u8_decimal(n / 100).push(digit_char((n / 10) % 10)));
            assert(n / 100 < 10) by (bit_vector);
            assert(u8_decimal(n / 100) == seq![digit_char(n / 100)]);
            assert(out@ =~= base + u8_decimal(n));
        }
    } else if n >= 10 {
        out.push((0x30 + n / 10) as char);
        out.push((0x30 + n % 10) as char);
        proof {
            assert(n / 10 < 10) by (bit_vector)
                requires
                    n < 100,
            ;
            assert(u8_decimal(n / 10) == seq![digit_char(n / 10)]);
            assert(out@ =~= base + u8_decimal(n));
        }
    } else {
        out.push((0x30 + n) as char);
        proof {
            assert(out@ =~= base + u8_decimal(n));
        }
    }
}

/// One row holding the given fields, quoted and comma-separated.
pub fn format_row(fields: &Vec<Vec<char>>) -> (r: Vec<char>)
    requires
        fields@.len() >= 1,
    ensures
        r@ == row_chars(fields.deep_view()),
{
    let ghost all = fields.deep_view();
    let mut out: Vec<char> = Vec::new();
    let n = fields.len();
    let mut i: usize = 0;
    proof {
        assert(all.skip(0) =~= all);
        assert(out@ + row_chars(all) =~= row_chars(all));
    }
    while i < n - 1
        invariant
            n == fields@.len(),
            n >= 1,
            all == fields.deep_view(),
            i <= n - 1,
            row_chars(all) == out@ + row_chars(all.skip(i as int)),
        decreases n - i,
    {
        push_quoted(&mut out, &fields[i]);
        out.push(',');
        i = i + 1;
        proof {
            let rest = all.skip(i as int - 1);
            assert(rest.len() > 1);
            assert(rest[0] == all[i as int - 1]);
            assert(rest.drop_first() =~= all.skip(i as int));
            assert(row_chars(rest) == quoted(all[i as int - 1]) + seq![','] + row_chars(
                all.skip(i as int),
            ));
            assert(all[i as int - 1] == fields@[i as int - 1]@);
            assert(out@ + row_chars(all.skip(i as int)) =~= row_chars(all));
        }
    }
    push_quoted(&mut out, &fields[n - 1]);
    out.push('\n');
    proof {
        let rest = all.skip(n as int - 1);
        assert(rest.len() == 1);
        assert(rest[0] == all[n as int - 1]);
        assert(row_chars(rest) == quoted(all[n as int - 1]) + seq!['\n']);
        assert(all[n as int - 1] == fields@[n as int - 1]@);
        assert(out@ =~= row_chars(all));
    }
    out
}

/// The decimal form of an 8-bit value is one to three digits long.
pub proof fn lemma_u8_decimal_len(n: u8)
    ensures
        1 <= u8_decimal(n).len() && u8_decimal(n).len() <= 3,
{
    if n >= 10 {
        let m = n / 10;
        if m < 10 {
            assert(u8_decimal(m).len() == 1);
        } else {
            let k = m / 10;
            assert(n / 10 / 10 < 10) by (bit_vector);
            assert(k < 10);
            assert(u8_decimal(k).len() == 1);
            assert(u8_decimal(m).len() == 2);
        }
    }
}

/// Parses a field body after its opening quote: the content, and the rest
/// of the input after the closing quote. `""` stands for one `"`; a lone
/// `"` closes the field.
pub open spec fn parse_field_body(s: Seq<char>) -> Option<(Seq<char>, Seq<char>)>
    decreases s.len(),
{
    if s.len() == 0 {
        None
    } else if s[0] == '"' {
        if s.len() >= 2 && s[1] == '"' {
            match parse_field_body(s.skip(2)) {
                None => None,
                Some(p) => Some((seq!['"'] + p.0, p.1)),
            }
        } else {
            Some((Seq::empty(), s.skip(1)))
        }
    } else {
        match parse_field_body(s.skip(1)) {
            None => None,
            Some(p) => Some((seq![s[0]] + p.0, p.1)),
        }
    }
}

/// Parses one quoted field at the front of `s`.
pub open spec fn parse_field(s: Seq<char>) -> Option<(Seq<char>, Seq<char>)> {
    if s.len() > 0 && s[0] == '"' {
        parse_field_body(s.skip(1))
    } else {
        None
    }
}

/// A successful field parse consumes at least the closing quote.
pub proof fn lemma_parse_field_body_shrinks(s: Seq<char>)
    requires
        parse_field_body(s) is Some,
    ensures
        parse_field_body(s)->Some_0.1.len() < s.len(),
    decreases s.len(),
{
    if s[0] == '"' {
        if s.len() >= 2 && s[1] == '"' {
            lemma_parse_field_body_shrinks(s.skip(2));
        }
    } else {
        lemma_parse_field_body_shrinks(s.skip(1));
    }
}

/// Parses one row at the front of `s`: its fields, and the rest of the
/// input after the row's newline.
pub open spec fn parse_row(s: Seq<char>) -> Option<(Seq<Seq<char>>, Seq<char>)>
    decreases s.len(),
    via parse_row_decreases
{
    match parse_field(s) {
        None => None,
        Some(p) => {
            let f = p.0;
            let r = p.1;
            if r.len() > 0 && r[0] == ',' {
                match parse_row(r.skip(1)) {
                    None => None,
                    Some(q) => Some((seq![f] + q.0, q.1)),
                }
            } else if r.len() > 0 && r[0] == '\n' {
                Some((seq![f], r.skip(1)))
            } else {
                None
            }
        },
    }
}

#[via_fn]
proof fn parse_row_decreases(s: Seq<char>) {
    if parse_field(s) is Some {
        lemma_parse_field_body_shrinks(s.skip(1));
    }
}

/// A successful row parse consumes at least one character.
pub proof fn lemma_parse_row_shrinks(s: Seq<char>)
    requires
        parse_row(s) is Some,
    ensures
        parse_row(s)->Some_0.1.len() < s.len(),
    decreases s.len(),
{
    lemma_parse_field_body_shrinks(s.skip(1));
    let r = parse_field(s)->Some_0.1;
    if r.len() > 0 && r[0] == ',' {
        lemma_parse_row_shrinks(r.skip(1));
    }
}

/// Parses a whole store: a sequence of rows covering all of `s`.
pub open spec fn parse_rows(s: Seq<char>) -> Option<Seq<Seq<Seq<char>>>>
    decreases s.len(),
    via parse_rows_decreases
{
    if s.len() == 0 {
        Some(Seq::empty())
    } else {
        match parse_row(s) {
            None => None,
            Some(p) => match parse_rows(p.1) {
                None => None,
                Some(rows) => Some(seq![p.0] + rows),
            },
        }
    }
}

#[via_fn]
proof fn parse_rows_decreases(s: Seq<char>) {
    if s.len() != 0 && parse_row(s) is Some {
        lemma_parse_row_shrinks(s);
    }
}

/// Runs `parse_field_body` on `v` from position `pos`: the field content,
/// and the position just after the closing quote.
pub fn parse_field_body_at(v: &Vec<char>, pos: usize) -> (r: Option<(Vec<char>, usize)>)
    requires
        pos <= v@.len(),
    ensures
        match r {
            Some(p) => {
                &&& p.1 <= v@.len()
                &&& parse_field_body(v@.skip(pos as int)) == Some((p.0@, v@.skip(p.1 as int)))
            },
            None => parse_field_body(v@.skip(pos as int)) is None,
        },
    decreases v@.len() - pos,
{
    let n = v.len();
    let ghost s = v@.skip(pos as int);
    if pos == n {
        return None;
    }
    let c = v[pos];
    proof {
        assert(s[0] == v@[pos as int]);
    }
    if c == '"' {
        if pos + 1 < n && v[pos + 1] == '"' {
            proof {
                assert(s.len() >= 2 && s[1] == '"');
                assert(s.skip(2) =~= v@.skip(pos as int + 2));
            }
            match parse_field_body_at(v, pos + 2) {
                None => None,
                Some(p) => {
                    let mut out: Vec<char> = Vec::new();
                    out.push('"');
                    let mut cc = p.0;
                    let ghost ccv = cc@;
                    out.append(&mut cc);
                    proof {
                        assert(out@ =~= seq!['"'] + ccv);
                    }
                    Some((out, p.1))
                },
            }
        } else {
            proof {
                if s.len() >= 2 {
                    assert(s[1] == v@[pos as int + 1]);
                }
                assert(s.skip(1) =~= v@.skip(pos as int + 1));
            }
            let empty: Vec<char> = Vec::new();
            Some((empty, pos + 1))
        }
    } else {
        proof {
            assert(s.skip(1) =~= v@.skip(pos as int + 1));
        }
        match parse_field_body_at(v, pos + 1) {
            None => None,
            Some(p) => {
                let mut out: Vec<char> = Vec::new();
                out.push(c);
                let mut cc = p.0;
                let ghost ccv = cc@;
                out.append(&mut cc);
                proof {
                    assert(out@ =~= seq![s[0]] + ccv);
                }
                Some((out, p.1))
            },
        }
    }
}

/// Runs `parse_row` on `v` from position `pos`: the row's fields, and the
/// position just after the row's newline.
pub fn parse_row_at(v: &Vec<char>, pos: usize) -> (r: Option<(Vec<Vec<char>>, usize)>)
    requires
        pos <= v@.len(),
    ensures
        match r {
            Some(p) => {
                &&& pos < p.1 <= v@.len()
                &&& parse_row(v@.skip(pos as int)) == Some((p.0.deep_view(), v@.skip(p.1 as int)))
            },
            None => parse_row(v@.skip(pos as int)) is None,
        },
    decreases v@.len() - pos,
{
    let n = v.len();
    let ghost s = v@.skip(pos as int);
    if pos == n || v[pos] != '"' {
        proof {
            if s.len() > 0 {
                assert(s[0] == v@[pos as int]);
            }
        }
        return None;
    }
    proof {
        assert(s[0] == v@[pos as int]);
        assert(s.skip(1) =~= v@.skip(pos as int + 1));
    }
    let p = match parse_field_body_at(v, pos + 1) {
        None => {
            return None;
        },
        Some(p) => p,
    };
    let f = p.0;
    let fe = p.1;
    proof {
        lemma_parse_field_body_shrinks(s.skip(1));
        assert(v@.skip(fe as int).len() < s.skip(1).len());
    }
    let ghost rest = v@.skip(fe as int);
    if fe < n && v[fe] == ',' {
        proof {
            assert(rest[0] == v@[fe as int]);
            assert(rest.skip(1) =~= v@.skip(fe as int + 1));
        }
        match parse_row_at(v, fe + 1) {
            None => None,
            Some(q) => {
                let mut out: Vec<Vec<char>> = Vec::new();
                out.push(f);
                let mut qq = q.0;
                let ghost qqv = qq.deep_view();
                out.append(&mut qq);
                proof {
                    assert(out.deep_view() =~~= seq![f@] + qqv);
                }
                Some((out, q.1))
            },
        }
    } else if fe < n && v[fe] == '\n' {
        proof {
            assert(rest[0] == v@[fe as int]);
            assert(rest.skip(1) =~= v@.skip(fe as int + 1));
        }
        let mut out: Vec<Vec<char>> = Vec::new();
        out.push(f);
        proof {
            assert(out.deep_view() =~~= seq![f@]);
        }
        Some((out, fe + 1))
    } else {
        proof {
            if rest.len() > 0 {
                assert(rest[0] == v@[fe as int]);
            }
        }
        None
    }
}

spec fn prepend_rows(a: Seq<Seq<Seq<char>>>, o: Option<Seq<Seq<Seq<char>>>>) -> Option<
    Seq<Seq<Seq<char>>>,
> {
    match o {
        None => None,
        Some(b) => Some(a + b),
    }
}

/// Runs `parse_rows` on the whole of `v`: every row's fields, when `v` is
/// a well-formed store.
pub fn parse_store(v: &Vec<char>) -> (r: Option<Vec<Vec<Vec<char>>>>)
    ensures
        match r {
            Some(rows) => parse_rows(v@) == Some(rows.deep_view()),
            None => parse_rows(v@) is None,
        },
{
    let n = v.len();
    let mut acc: Vec<Vec<Vec<char>>> = Vec::new();
    let mut pos: usize = 0;
    proof {
        assert(v@.skip(0) =~= v@);
        assert(acc.deep_view() =~= Seq::<Seq<Seq<char>>>::empty());
        if parse_rows(v@) is Some {
            assert(Seq::<Seq<Seq<char>>>::empty() + parse_rows(v@)->Some_0 =~= parse_rows(
                v@,
            )->Some_0);
        }
    }
    while pos < n
        invariant
            pos <= n,
            n == v@.len(),
            parse_rows(v@) == prepend_rows(acc.deep_view(), parse_rows(v@.skip(pos as int))),
        decreases n - pos,
    {
        let ghost s = v@.skip(pos as int);
        let q = match parse_row_at(v, pos) {
            None => {
                return None;
            },
            Some(q) => q,
        };
        let ghost accv = acc.deep_view();
        let ghost fields = q.0.deep_view();
        acc.push(q.0);
        pos = q.1;
        proof {
            assert(acc.deep_view() =~~= accv.push(fields));
            let tail = parse_rows(v@.skip(pos as int));
            assert(parse_rows(s) == (match tail {
                None => None::<Seq<Seq<Seq<char>>>>,
                Some(rows) => Some(seq![fields] + rows),
            }));
            if tail is Some {
                assert(accv + (seq![fields] + tail->Some_0) =~= accv.push(fields)
                    + tail->Some_0);
            }
        }
    }
    proof {
        assert(v@.skip(n as int) =~= Seq::<char>::empty());
        assert(parse_rows(Seq::<char>::empty()) == Some(Seq::<Seq<Seq<char>>>::empty()));
        assert(acc.deep_view() + Seq::<Seq<Seq<char>>>::empty() =~= acc.deep_view());
    }
    Some(acc)
}

/// Parsing inverts escaping: a field body followed by its closing quote and
/// anything that does not begin with a quote parses back to the field.
pub proof fn lemma_field_round_trip(f: Seq<char>, rest: Seq<char>)
    requires
        rest.len() == 0 || rest[0] != '"',
    ensures
        parse_field_body(escape_quotes(f) + seq!['"'] + rest) == Some((f, rest)),
    decreases f.len(),
{
    let s = escape_quotes(f) + seq!['"'] + rest;
    if f.len() == 0 {
        assert(s =~= seq!['"'] + rest);
        assert(s[0] == '"');
        if s.len() >= 2 {
            assert(s[1] == rest[0]);
        }
        assert(s.skip(1) =~= rest);
        assert(parse_field_body(s) =~~= Some((f, rest)));
    } else {
        let c = f[0];
        let f1 = f.drop_first();
        lemma_field_round_trip(f1, rest);
        let s1 = escape_quotes(f1) + seq!['"'] + rest;
        if c == '"' {
            assert(escape_quotes(f) == seq!['"', '"'] + escape_quotes(f1));
            assert(s.len() >= 2 && s[0] == '"' && s[1] == '"');
            assert(s.skip(2) =~= s1);
            assert(seq!['"'] + f1 =~= f);
            assert(parse_field_body(s) =~~= Some((f, rest)));
        } else {
            assert(escape_quotes(f) == seq![c] + escape_quotes(f1));
            assert(s[0] == c);
            assert(s.skip(1) =~= s1);
            assert(seq![c] + f1 =~= f);
            assert(parse_field_body(s) =~~= Some((f, rest)));
        }
    }
}

/// Parsing inverts row formatting, whatever follows the row.
pub proof fn lemma_row_round_trip(fields: Seq<Seq<char>>, rest: Seq<char>)
    requires
        fields.len() >= 1,
    ensures
        parse_row(row_chars(fields) + rest) == Some((fields, rest)),
    decreases fields.len(),
{
    let s = row_chars(fields) + rest;
    let f0 = fields[0];
    if fields.len() == 1 {
        let tail = seq!['\n'] + rest;
        assert(s =~= seq!['"'] + (escape_quotes(f0) + seq!['"'] + tail));
        assert(s[0] == '"');
        lemma_field_round_trip(f0, tail);
        assert(s.skip(1) =~= escape_quotes(f0) + seq!['"'] + tail);
        assert(parse_field(s) == Some((f0, tail)));
        assert(tail[0] == '\n');
        assert(tail.skip(1) =~= rest);
        assert(seq![f0] =~= fields);
        assert(parse_row(s) =~~= Some((fields, rest)));
    } else {
        let fs1 = fields.drop_first();
        let tail = seq![','] + (row_chars(fs1) + rest);
        assert(s =~= seq!['"'] + (escape_quotes(f0) + seq!['"'] + tail));
        assert(s[0] == '"');
        lemma_field_round_trip(f0, tail);
        assert(s.skip(1) =~= escape_quotes(f0) + seq!['"'] + tail);
        assert(parse_field(s) == Some((f0, tail)));
        assert(tail[0] == ',');
        lemma_row_round_trip(fs1, rest);
        assert(tail.skip(1) =~= row_chars(fs1) + rest);
        assert(seq![f0] + fs1 =~= fields);
        assert(parse_row(s) =~~= Some((fields, rest)));
    }
}

/// Every formatted row holds at least its ending newline.
pub proof fn lemma_row_chars_nonempty(fields: Seq<Seq<char>>)
    ensures
        row_chars(fields).len() >= 1,
    decreases fields.len(),
{
    if fields.len() > 1 {
        lemma_row_chars_nonempty(fields.drop_first());
    }
}

/// Parsing inverts store formatting: a store written as rows of fields
/// reads back as exactly those rows.
pub proof fn lemma_rows_round_trip(rows: Seq<Seq<Seq<char>>>)
    requires
        forall|i: int| 0 <= i < rows.len() ==> #[trigger] rows[i].len() >= 1,
    ensures
        parse_rows(rows_chars(rows)) == Some(rows),
    decreases rows.len(),
{
    let s = rows_chars(rows);
    if rows.len() == 0 {
        assert(parse_rows(s) =~~= Some(rows));
    } else {
        let r0 = rows[0];
        let rs1 = rows.drop_first();
        lemma_row_chars_nonempty(r0);
        lemma_row_round_trip(r0, rows_chars(rs1));
        lemma_rows_round_trip(rs1);
        assert(s == row_chars(r0) + rows_chars(rs1));
        assert(s.len() >= 1);
        assert(parse_row(s) == Some((r0, rows_chars(rs1))));
        assert(seq![r0] + rs1 =~= rows);
        assert(parse_rows(s) =~~= Some(rows));
    }
}

} // verus!

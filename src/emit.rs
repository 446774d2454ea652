//! Numeric literals written out as text, and the greedy wrapping of literals
//! into lines of a C array declaration.

use vstd::prelude::*;

verus! {

/// The digit character for `d` in base 16 (upper case), which for `d < 10` is
/// also its decimal digit.
pub open spec fn hex_char(d: int) -> char {
    if d == 0 {
        '0'
    } else if d == 1 {
        '1'
    } else if d == 2 {
        '2'
    } else if d == 3 {
        '3'
    } else if d == 4 {
        '4'
    } else if d == 5 {
        '5'
    } else if d == 6 {
        '6'
    } else if d == 7 {
        '7'
    } else if d == 8 {
        '8'
    } else if d == 9 {
        '9'
    } else if d == 10 {
        'A'
    } else if d == 11 {
        'B'
    } else if d == 12 {
        'C'
    } else if d == 13 {
        'D'
    } else if d == 14 {
        'E'
    } else {
        'F'
    }
}

/// `v` in base 16, upper case, zero-padded on the left to at least `n` digits.
pub open spec fn hex_digits(v: nat, n: nat) -> Seq<char>
    decreases v + n,
{
    if v < 16 && n <= 1 {
        seq![hex_char(v as int)]
    } else {
        hex_digits(v / 16, if n > 0 { (n - 1) as nat } else { 0 }).push(hex_char((v % 16) as int))
    }
}

/// `v` in base 10, without leading zeros.
pub open spec fn dec_digits(v: nat) -> Seq<char>
    decreases v,
{
    if v < 10 {
        seq![hex_char(v as int)]
    } else {
        dec_digits(v / 10).push(hex_char((v % 10) as int))
    }
}

fn digit_str(d: u64) -> (r: &'static str)
    requires
        d < 16,
    ensures
        r@ == seq![hex_char(d as int)],
{
    if d == 0 {
        proof { reveal_strlit("0"); }
        "0"
    } else if d == 1 {
        proof { reveal_strlit("1"); }
        "1"
    } else if d == 2 {
        proof { reveal_strlit("2"); }
        "2"
    } else if d == 3 {
        proof { reveal_strlit("3"); }
        "3"
    } else if d == 4 {
        proof { reveal_strlit("4"); }
        "4"
    } else if d == 5 {
        proof { reveal_strlit("5"); }
        "5"
    } else if d == 6 {
        proof { reveal_strlit("6"); }
        "6"
    } else if d == 7 {
        proof { reveal_strlit("7"); }
        "7"
    } else if d == 8 {
        proof { reveal_strlit("8"); }
        "8"
    } else if d == 9 {
        proof { reveal_strlit("9"); }
        "9"
    } else if d == 10 {
        proof { reveal_strlit("A"); }
        "A"
    } else if d == 11 {
        proof { reveal_strlit("B"); }
        "B"
    } else if d == 12 {
        proof { reveal_strlit("C"); }
        "C"
    } else if d == 13 {
        proof { reveal_strlit("D"); }
        "D"
    } else if d == 14 {
        proof { reveal_strlit("E"); }
        "E"
    } else {
        proof { reveal_strlit("F"); }
        "F"
    }
}

/// Appends `v` in base 16, zero-padded to at least `n` digits.
pub fn push_hex(out: &mut String, v: u64, n: u64)
    ensures
        final(out)@ == old(out)@ + hex_digits(v as nat, n as nat),
    decreases v + n,
{
    if v < 16 && n <= 1 {
        out.append(digit_str(v));
    } else {
        let m: u64 = if n > 0 { n - 1 } else { 0 };
        push_hex(out, v / 16, m);
        out.append(digit_str(v % 16));
    }
}

/// Appends `v` in base 10.
pub fn push_dec(out: &mut String, v: u64)
    ensures
        final(out)@ == old(out)@ + dec_digits(v as nat),
    decreases v,
{
    if v < 10 {
        out.append(digit_str(v));
    } else {
        push_dec(out, v / 10);
        out.append(digit_str(v % 10));
    }
}

/// The widest line that wrapping aims for.
pub const MAX_LINE_WIDTH: usize = 80;

/// How the literals of an array are written.
#[derive(Debug, Clone, Copy, PartialEq, Eq, Structural)]
pub enum LiteralStyle {
    /// `0x` and at least four upper-case hex digits, then `, `.
    Hex4,
    /// `0x` and at least six upper-case hex digits, then `, `.
    Hex6,
    /// Decimal digits, then `,`.
    Decimal,
}

/// One literal with the separator that follows it.
pub open spec fn literal_token(style: LiteralStyle, v: u64) -> Seq<char> {
    match style {
        LiteralStyle::Hex4 => "0x"@ + hex_digits(v as nat, 4) + ", "@,
        LiteralStyle::Hex6 => "0x"@ + hex_digits(v as nat, 6) + ", "@,
        LiteralStyle::Decimal => dec_digits(v as nat) + ","@,
    }
}

/// The literals of `values`, in order.
pub open spec fn tokens_of(style: LiteralStyle, values: Seq<u64>) -> Seq<Seq<char>> {
    values.map_values(|v: u64| literal_token(style, v))
}

/// The text that each line starts with.
pub open spec fn indent() -> Seq<char> {
    "    "@
}

/// Greedy packing of `toks` into lines: the lines already closed, and the line
/// being filled. A token goes onto the current line unless the line would then
/// be longer than `width`; then the current line is closed and a new one opened.
pub open spec fn wrap_state(toks: Seq<Seq<char>>, width: nat) -> (Seq<Seq<char>>, Seq<char>)
    decreases toks.len(),
{
    if toks.len() == 0 {
        (Seq::empty(), indent())
    } else {
        let (done, cur) = wrap_state(toks.drop_last(), width);
        let t = toks.last();
        if cur.len() + t.len() > width {
            (done.push(cur), indent() + t)
        } else {
            (done, cur + t)
        }
    }
}

/// The lines that `toks` are wrapped into; the last one is closed when there
/// is at least one token.
pub open spec fn wrap_lines(toks: Seq<Seq<char>>, width: nat) -> Seq<Seq<char>> {
    let (done, cur) = wrap_state(toks, width);
    if toks.len() == 0 {
        done
    } else {
        done.push(cur)
    }
}

/// Lines written out, each ended by a newline.
pub open spec fn lines_text(lines: Seq<Seq<char>>) -> Seq<char>
    decreases lines.len(),
{
    if lines.len() == 0 {
        Seq::empty()
    } else {
        lines_text(lines.drop_last()) + lines.last() + "\n"@
    }
}

/// The first line of an array declaration.
pub open spec fn declaration(ctype: Seq<char>, name: Seq<char>, count: nat) -> Seq<char> {
    "\nconst "@ + ctype + " "@ + name + "["@ + dec_digits(count) + "] PROGMEM = {\n"@
}

/// A whole array declaration: its first line, the wrapped literals, and the
/// closing line.
pub open spec fn array_text(ctype: Seq<char>, name: Seq<char>, style: LiteralStyle, values: Seq<
    u64,
>) -> Seq<char> {
    declaration(ctype, name, values.len()) + lines_text(
        wrap_lines(tokens_of(style, values), MAX_LINE_WIDTH as nat),
    ) + "};\n"@
}

spec fn pow_nat(b: nat, e: nat) -> nat
    decreases e,
{
    if e == 0 {
        1
    } else {
        b * pow_nat(b, (e - 1) as nat)
    }
}

proof fn lemma_hex_len(v: nat, n: nat, k: nat)
    requires
        1 <= k,
        n <= k,
        v < pow_nat(16, k),
    ensures
        hex_digits(v, n).len() <= k,
    decreases v + n,
{
    if !(v < 16 && n <= 1) {
        let m: nat = if n > 0 { (n - 1) as nat } else { 0 };
        if k == 1 {
            assert(pow_nat(16, 0) == 1);
        } else {
            let p = pow_nat(16, (k - 1) as nat);
            assert(v / 16 < p) by (nonlinear_arith)
                requires
                    v < 16 * p,
            ;
            lemma_hex_len(v / 16, m, (k - 1) as nat);
        }
    }
}

proof fn lemma_dec_len(v: nat, k: nat)
    requires
        1 <= k,
        v < pow_nat(10, k),
    ensures
        dec_digits(v).len() <= k,
    decreases v,
{
    if v >= 10 {
        if k == 1 {
            assert(pow_nat(10, 0) == 1);
        } else {
            let p = pow_nat(10, (k - 1) as nat);
            assert(v / 10 < p) by (nonlinear_arith)
                requires
                    v < 10 * p,
            ;
            lemma_dec_len(v / 10, (k - 1) as nat);
        }
    }
}

/// No literal is longer than 24 characters.
pub proof fn lemma_token_len(style: LiteralStyle, v: u64)
    ensures
        0 < literal_token(style, v).len() <= 24,
{
    reveal_strlit("0x");
    reveal_strlit(", ");
    reveal_strlit(",");
    reveal_with_fuel(pow_nat, 21);
    assert(pow_nat(16, 16) == 0x1_0000_0000_0000_0000);
    assert(pow_nat(10, 20) == 100_000_000_000_000_000_000);
    lemma_hex_len(v as nat, 4, 16);
    lemma_hex_len(v as nat, 6, 16);
    lemma_dec_len(v as nat, 20);
}

/// One literal with its separator (see `literal_token`).
pub fn literal_text(style: LiteralStyle, v: u64) -> (r: String)
    ensures
        r@ == literal_token(style, v),
{
    let mut s = String::new();
    match style {
        LiteralStyle::Hex4 => {
            s.append("0x");
            push_hex(&mut s, v, 4);
            s.append(", ");
        },
        LiteralStyle::Hex6 => {
            s.append("0x");
            push_hex(&mut s, v, 6);
            s.append(", ");
        },
        LiteralStyle::Decimal => {
            push_dec(&mut s, v);
            s.append(",");
        },
    }
    s
}

/// Appends the first line of the declaration of array `name` of element type
/// `ctype` with `count` elements (see `declaration`).
pub fn emit_declaration(out: &mut String, ctype: &str, name: &str, count: u64)
    ensures
        final(out)@ == old(out)@ + declaration(ctype@, name@, count as nat),
{
    out.append("\nconst ");
    out.append(ctype);
    out.append(" ");
    out.append(name);
    out.append("[");
    push_dec(out, count);
    out.append("] PROGMEM = {\n");
}

/// Appends the declaration of array `name` of element type `ctype` holding
/// `values`, its literals wrapped greedily into lines of at most
/// `MAX_LINE_WIDTH` characters (see `array_text`).
pub fn emit_array(out: &mut String, ctype: &str, name: &str, style: LiteralStyle, values: &Vec<u64>)
    ensures
        final(out)@ == old(out)@ + array_text(ctype@, name@, style, values@),
{
    let ghost toks = tokens_of(style, values@);
    emit_declaration(out, ctype, name, values.len() as u64);
    let ghost start = out@;
    let mut line = String::new();
    line.append("    ");
    let mut cur_len: usize = 4;
    proof {
        reveal_strlit("    ");
    }
    let ghost mut done: Seq<Seq<char>> = Seq::empty();
    let mut i: usize = 0;
    while i < values.len()
        invariant
            i <= values.len(),
            toks == tokens_of(style, values@),
            wrap_state(toks.take(i as int), MAX_LINE_WIDTH as nat) == (done, line@),
            out@ == start + lines_text(done),
            cur_len == line@.len(),
            cur_len <= MAX_LINE_WIDTH,
        decreases values.len() - i,
    {
        let tok = literal_text(style, values[i]);
        let tl = tok.as_str().unicode_len();
        proof {
            lemma_token_len(style, values@[i as int]);
            assert(toks.take(i + 1).drop_last() =~= toks.take(i as int));
            assert(toks.take(i + 1).last() == tok@);
        }
        if cur_len + tl > MAX_LINE_WIDTH {
            out.append(line.as_str());
            out.append("\n");
            proof {
                assert(done.push(line@).drop_last() =~= done);
                done = done.push(line@);
            }
            line = String::new();
            line.append("    ");
            proof {
                reveal_strlit("    ");
            }
            cur_len = 4;
        }
        line.append(tok.as_str());
        cur_len += tl;
        i += 1;
    }
    assert(toks.take(values.len() as int) =~= toks);
    if values.len() > 0 {
        out.append(line.as_str());
        out.append("\n");
        assert(done.push(line@).drop_last() =~= done);
    }
    out.append("};\n");
}

/// Tokens written one after another.
pub open spec fn concat(toks: Seq<Seq<char>>) -> Seq<char>
    decreases toks.len(),
{
    if toks.len() == 0 {
        Seq::empty()
    } else {
        concat(toks.drop_last()) + toks.last()
    }
}

/// Lines written one after another, each without its indentation.
pub open spec fn unindented(lines: Seq<Seq<char>>) -> Seq<char>
    decreases lines.len(),
{
    if lines.len() == 0 {
        Seq::empty()
    } else {
        unindented(lines.drop_last()) + lines.last().subrange(
            indent().len() as int,
            lines.last().len() as int,
        )
    }
}

/// The line starts with the indentation.
pub open spec fn indented(line: Seq<char>) -> bool {
    line.len() >= indent().len() && line.take(indent().len() as int) == indent()
}

proof fn lemma_wrap_state(toks: Seq<Seq<char>>, width: nat)
    requires
        forall|i: int| 0 <= i < toks.len() ==> indent().len() + (#[trigger] toks[i]).len() <= width,
    ensures
        ({
            let (done, cur) = wrap_state(toks, width);
            &&& forall|k: int|
                0 <= k < done.len() ==> (#[trigger] done[k]).len() <= width && indented(done[k])
            &&& toks.len() > 0 ==> cur.len() <= width
            &&& indented(cur)
            &&& unindented(done) + cur.subrange(4, cur.len() as int) == concat(toks)
        }),
    decreases toks.len(),
{
    reveal_strlit("    ");
    if toks.len() == 0 {
        assert(indent().subrange(4, 4) =~= Seq::<char>::empty());
        assert(indent().take(4) =~= indent());
        assert(Seq::<char>::empty() + Seq::<char>::empty() =~= Seq::<char>::empty());
    } else {
        let pre = toks.drop_last();
        assert forall|i: int| 0 <= i < pre.len() implies indent().len() + (#[trigger] pre[i]).len()
            <= width by {
            assert(pre[i] == toks[i]);
        }
        lemma_wrap_state(pre, width);
        let (done, cur) = wrap_state(pre, width);
        let t = toks.last();
        assert(indent().len() + toks[toks.len() - 1].len() <= width);
        if cur.len() + t.len() > width {
            let nd = done.push(cur);
            let nc = indent() + t;
            assert(nd.drop_last() =~= done);
            assert(nc.subrange(4, nc.len() as int) =~= t);
            assert(nc.take(4) =~= indent());
            assert forall|k: int| 0 <= k < nd.len() implies (#[trigger] nd[k]).len() <= width
                && indented(nd[k]) by {
                if k < done.len() {
                    assert(nd[k] == done[k]);
                }
            }
            assert(unindented(nd) + nc.subrange(4, nc.len() as int) =~= unindented(done)
                + cur.subrange(4, cur.len() as int) + t);
        } else {
            let nc = cur + t;
            assert(nc.subrange(4, nc.len() as int) =~= cur.subrange(4, cur.len() as int) + t);
            assert(nc.take(4) =~= cur.take(4));
            assert(unindented(done) + nc.subrange(4, nc.len() as int) =~= unindented(done)
                + cur.subrange(4, cur.len() as int) + t);
        }
    }
}

/// When every token fits on a line after the indentation, wrapping gives lines
/// that each start with the indentation and are at most `width` long, and the
/// lines without their indentation, one after another, are the tokens one
/// after another.
pub proof fn lemma_wrap_lines(toks: Seq<Seq<char>>, width: nat)
    requires
        forall|i: int| 0 <= i < toks.len() ==> indent().len() + (#[trigger] toks[i]).len() <= width,
    ensures
        forall|k: int|
            0 <= k < wrap_lines(toks, width).len() ==> (#[trigger] wrap_lines(toks, width)[k]).len()
                <= width && indented(wrap_lines(toks, width)[k]),
        unindented(wrap_lines(toks, width)) == concat(toks),
{
    reveal_strlit("    ");
    lemma_wrap_state(toks, width);
    let (done, cur) = wrap_state(toks, width);
    if toks.len() == 0 {
        assert(cur == indent());
        assert(cur.subrange(4, cur.len() as int) =~= Seq::<char>::empty());
        assert(unindented(done) =~= concat(toks));
    } else {
        let lines = done.push(cur);
        assert(lines.drop_last() =~= done);
        assert forall|k: int| 0 <= k < lines.len() implies (#[trigger] lines[k]).len() <= width
            && indented(lines[k]) by {
            if k < done.len() {
                assert(lines[k] == done[k]);
            }
        }
    }
}

/// The arrays that `emit_array` writes have lines of at most `MAX_LINE_WIDTH`
/// characters, and those lines without their indentation are the literals of
/// the values, in order.
pub proof fn lemma_emitted_lines(style: LiteralStyle, values: Seq<u64>)
    ensures
        forall|k: int|
            0 <= k < wrap_lines(tokens_of(style, values), MAX_LINE_WIDTH as nat).len() ==> (
            #[trigger] wrap_lines(tokens_of(style, values), MAX_LINE_WIDTH as nat)[k]).len()
                <= MAX_LINE_WIDTH,
        unindented(wrap_lines(tokens_of(style, values), MAX_LINE_WIDTH as nat)) == concat(
            tokens_of(style, values),
        ),
{
    reveal_strlit("    ");
    let toks = tokens_of(style, values);
    assert forall|i: int| 0 <= i < toks.len() implies indent().len() + (#[trigger] toks[i]).len()
        <= MAX_LINE_WIDTH as nat by {
        lemma_token_len(style, values[i]);
    }
    lemma_wrap_lines(toks, MAX_LINE_WIDTH as nat);
}

} // verus!

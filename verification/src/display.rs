use vstd::prelude::*;

use crate::bytes::{decimal, digits_value, lemma_decimal_spells, push_decimal, string_of_chars};
use crate::parser::grammar::chars_of;
use crate::record::field::{type_code, Type};
use crate::seqs::lemma_map_push;

verus! {

/// `n` spaces.
pub open spec fn spaces(n: nat) -> Seq<char> {
    Seq::new(n, |i: int| ' ')
}

/// The text right-aligned in `width` characters.
pub open spec fn pad_left(s: Seq<char>, width: nat) -> Seq<char> {
    if s.len() < width {
        spaces((width - s.len()) as nat) + s
    } else {
        s
    }
}

/// The text left-aligned in `width` characters.
pub open spec fn pad_right(s: Seq<char>, width: nat) -> Seq<char> {
    if s.len() < width {
        s + spaces((width - s.len()) as nat)
    } else {
        s
    }
}

/// Padding keeps the text and fills up to the width with spaces: right
/// alignment puts the spaces in front, left alignment behind, and a text as
/// wide as the width or wider is left as it is.
pub proof fn lemma_padding(s: Seq<char>, width: nat)
    ensures
        pad_left(s, width).len() == if s.len() < width { width } else { s.len() },
        pad_right(s, width).len() == if s.len() < width { width } else { s.len() },
        pad_left(s, width).skip(pad_left(s, width).len() - s.len()) == s,
        pad_right(s, width).take(s.len() as int) == s,
        forall|i: int| 0 <= i < pad_left(s, width).len() - s.len() ==> #[trigger] pad_left(s, width)[i] == ' ',
        forall|i: int| s.len() <= i < pad_right(s, width).len() ==> #[trigger] pad_right(s, width)[i] == ' ',
{
    if s.len() < width {
        let n = (width - s.len()) as nat;
        assert((spaces(n) + s).skip(n as int) =~= s);
        assert((s + spaces(n)).take(s.len() as int) =~= s);
    } else {
        assert(s.skip(0) =~= s);
        assert(s.take(s.len() as int) =~= s);
    }
}

/// The text cut into pieces of `width` characters, the last one shorter.
pub open spec fn chunks(s: Seq<char>, width: nat) -> Seq<Seq<char>>
    decreases s.len(),
{
    if width == 0 || s.len() == 0 {
        Seq::empty()
    } else if s.len() <= width {
        seq![s]
    } else {
        seq![s.take(width as int)] + chunks(s.skip(width as int), width)
    }
}

/// Cutting a text into pieces loses nothing: the pieces, each non-empty and
/// at most `width` long, all but the last exactly `width` long, put back
/// together give the text.
pub proof fn lemma_chunks_rejoin(s: Seq<char>, width: nat)
    requires
        width > 0,
    ensures
        chunks(s, width).flatten() == s,
        forall|i: int|
            0 <= i < chunks(s, width).len() ==> 0 < (#[trigger] chunks(s, width)[i]).len() <= width,
        forall|i: int|
            0 <= i < chunks(s, width).len() - 1 ==> (#[trigger] chunks(s, width)[i]).len() == width,
    decreases s.len(),
{
    if s.len() == 0 {
        assert(chunks(s, width) =~= Seq::<Seq<char>>::empty());
        assert(s =~= Seq::<char>::empty());
    } else if s.len() <= width {
        assert(seq![s].flatten() =~= s) by {
            assert(seq![s].drop_first() =~= Seq::<Seq<char>>::empty());
            assert(seq![s].drop_first().flatten() =~= Seq::<char>::empty());
        }
    } else {
        let head = s.take(width as int);
        let rest = s.skip(width as int);
        lemma_chunks_rejoin(rest, width);
        let c = chunks(s, width);
        assert(c == seq![head] + chunks(rest, width));
        assert(c.drop_first() =~= chunks(rest, width));
        assert(c[0] == head);
        assert(c.flatten() == head + chunks(rest, width).flatten());
        assert(head + rest =~= s);
        assert forall|i: int| 0 <= i < c.len() implies 0 < (#[trigger] c[i]).len() <= width by {
            if i > 0 {
                assert(c[i] == chunks(rest, width)[i - 1]);
            }
        }
        assert forall|i: int| 0 <= i < c.len() - 1 implies (#[trigger] c[i]).len() == width by {
            if i > 0 {
                assert(c[i] == chunks(rest, width)[i - 1]);
            }
        }
    }
}

/// The lines of a text cell of `width` characters: the text cut into pieces,
/// each left-aligned; an empty text gives one blank line.
pub open spec fn text_cell(s: Seq<char>, width: nat) -> Seq<Seq<char>> {
    if s.len() == 0 {
        seq![spaces(width)]
    } else {
        chunks(s, width).map_values(|c: Seq<char>| pad_right(c, width))
    }
}

/// The decimal text of an integer.
pub open spec fn int_text(v: i32) -> Seq<char> {
    if v < 0 {
        seq!['-'] + decimal((-(v as int)) as nat)
    } else {
        decimal(v as nat)
    }
}

/// The text of an integer spells it: its digits, after a `-` where it is
/// negative.
pub proof fn lemma_int_text_spells(v: i32)
    ensures
        v < 0 ==> int_text(v)[0] == '-' && digits_value(int_text(v).skip(1)) == -v,
        v >= 0 ==> digits_value(int_text(v)) == v && int_text(v)[0] != '-',
{
    if v < 0 {
        lemma_decimal_spells((-(v as int)) as nat);
        assert(int_text(v).skip(1) =~= decimal((-(v as int)) as nat));
    } else {
        lemma_decimal_spells(v as nat);
    }
}

/// The text `NULL`.
pub open spec fn null_text() -> Seq<char> {
    seq!['N', 'U', 'L', 'L']
}

/// The type of a column shown in a result table.
#[derive(Debug, Clone, Copy, PartialEq, Eq)]
pub enum ColumnKind {
    Integer,
    Text,
}

/// The lines that a value takes in its column: an integer (or its `NULL`)
/// right-aligned on one line, a string (or its `NULL`) cut into left-aligned
/// pieces.
pub open spec fn value_cell(kind: ColumnKind, shown: Seq<char>, width: nat) -> Seq<Seq<char>> {
    match kind {
        ColumnKind::Integer => seq![pad_left(shown, width)],
        ColumnKind::Text => text_cell(shown, width),
    }
}

/// The piece of a cell shown on line `line`: the cell's line, or blanks
/// where the cell has fewer lines.
pub open spec fn cell_line(cell: Seq<Seq<char>>, line: int, width: nat) -> Seq<char> {
    if 0 <= line < cell.len() {
        cell[line]
    } else {
        spaces(width)
    }
}

/// The number of lines a row takes: that of its tallest cell, at least one.
pub open spec fn row_height(cells: Seq<Seq<Seq<char>>>) -> nat
    decreases cells.len(),
{
    if cells.len() == 0 {
        1
    } else {
        let h = row_height(cells.drop_last());
        if cells.last().len() > h {
            cells.last().len()
        } else {
            h
        }
    }
}

/// A row is as tall as its tallest cell, and at least one line tall.
pub proof fn lemma_row_height_tallest(cells: Seq<Seq<Seq<char>>>)
    ensures
        row_height(cells) >= 1,
        forall|i: int| 0 <= i < cells.len() ==> row_height(cells) >= (#[trigger] cells[i]).len(),
        row_height(cells) == 1 || exists|i: int| 0 <= i < cells.len() && row_height(cells) == (#[trigger] cells[i]).len(),
    decreases cells.len(),
{
    if cells.len() > 0 {
        let front = cells.drop_last();
        lemma_row_height_tallest(front);
        assert forall|i: int| 0 <= i < cells.len() implies row_height(cells) >= (#[trigger] cells[i]).len() by {
            if i < front.len() {
                assert(cells[i] == front[i]);
            }
        }
        if row_height(cells) != 1 {
            if row_height(cells) == cells.last().len() {
                assert(cells[cells.len() - 1] == cells.last());
            } else {
                let i = choose|i: int| 0 <= i < front.len() && row_height(front) == (#[trigger] front[i]).len();
                assert(cells[i] == front[i]);
            }
        }
    }
}

fn push_spaces(out: &mut Vec<char>, n: usize)
    ensures
        final(out)@ == old(out)@ + spaces(n as nat),
{
    let mut i: usize = 0;
    while i < n
        invariant
            i <= n,
            out@ == old(out)@ + spaces(i as nat),
        decreases n - i,
    {
        out.push(' ');
        i = i + 1;
        assert(out@ =~= old(out)@ + spaces(i as nat));
    }
}

fn push_all(out: &mut Vec<char>, s: &[char])
    ensures
        final(out)@ == old(out)@ + s@,
{
    let mut i: usize = 0;
    while i < s.len()
        invariant
            i <= s@.len(),
            out@ == old(out)@ + s@.take(i as int),
        decreases s@.len() - i,
    {
        out.push(s[i]);
        i = i + 1;
        assert(out@ =~= old(out)@ + s@.take(i as int));
    }
    assert(s@.take(i as int) =~= s@);
}

/// The text right-aligned in `width` characters.
pub fn align_right(s: &str, width: usize) -> (r: String)
    ensures
        r@ == pad_left(s@, width as nat),
{
    let cs = chars_of(s);
    let mut out: Vec<char> = Vec::new();
    if cs.len() < width {
        push_spaces(&mut out, width - cs.len());
    }
    push_all(&mut out, cs.as_slice());
    assert(out@ =~= pad_left(s@, width as nat));
    string_of_chars(out.as_slice())
}

fn align_left_chars(cs: &[char], width: usize) -> (r: String)
    ensures
        r@ == pad_right(cs@, width as nat),
{
    let mut out: Vec<char> = Vec::new();
    push_all(&mut out, cs);
    if cs.len() < width {
        push_spaces(&mut out, width - cs.len());
    }
    assert(out@ =~= pad_right(cs@, width as nat));
    string_of_chars(out.as_slice())
}

/// The text left-aligned in `width` characters.
pub fn align_left(s: &str, width: usize) -> (r: String)
    ensures
        r@ == pad_right(s@, width as nat),
{
    let cs = chars_of(s);
    align_left_chars(cs.as_slice(), width)
}

/// `n` spaces.
pub fn blank(n: usize) -> (r: String)
    ensures
        r@ == spaces(n as nat),
{
    let mut out: Vec<char> = Vec::new();
    push_spaces(&mut out, n);
    assert(out@ =~= spaces(n as nat));
    string_of_chars(out.as_slice())
}

/// The models of a list of strings.
pub open spec fn texts(v: Seq<String>) -> Seq<Seq<char>> {
    v.map_values(|s: String| s@)
}

/// The lines of a text cell of `width` characters.
pub fn wrap_text(s: &str, width: usize) -> (r: Vec<String>)
    requires
        width > 0,
    ensures
        texts(r@) == text_cell(s@, width as nat),
{
    let cs = chars_of(s);
    let n = cs.len();
    let mut out: Vec<String> = Vec::new();
    if n == 0 {
        let b = blank(width);
        out.push(b);
        assert(texts(out@) =~= seq![spaces(width as nat)]);
        return out;
    }
    let ghost all = chunks(s@, width as nat).map_values(|c: Seq<char>| pad_right(c, width as nat));
    let mut start: usize = 0;
    proof {
        assert(cs@.skip(0) =~= cs@);
        assert(texts(out@) =~= Seq::<Seq<char>>::empty());
        assert(texts(out@) + all =~= all);
    }
    while start < n
        invariant
            width > 0,
            n == cs@.len(),
            cs@ == s@,
            n > 0,
            start <= n,
            all == chunks(s@, width as nat).map_values(|c: Seq<char>| pad_right(c, width as nat)),
            texts(out@) + chunks(cs@.skip(start as int), width as nat).map_values(
                |c: Seq<char>| pad_right(c, width as nat),
            ) == all,
        decreases n - start,
    {
        let end = if n - start <= width {
            n
        } else {
            start + width
        };
        let ghost rest = cs@.skip(start as int);
        let piece = align_left_chars(vstd::slice::slice_subrange(cs.as_slice(), start, end), width);
        let ghost before = out@;
        out.push(piece);
        proof {
            lemma_map_push(before, piece, |s: String| s@);
            if n - start <= width {
                assert(rest.len() <= width);
                assert(cs@.subrange(start as int, end as int) =~= rest);
                assert(chunks(rest, width as nat) == seq![rest]);
                assert(cs@.skip(end as int) =~= Seq::<char>::empty());
            } else {
                assert(cs@.subrange(start as int, end as int) =~= rest.take(width as int));
                assert(cs@.skip(end as int) =~= rest.skip(width as int));
            }
            let f = |c: Seq<char>| pad_right(c, width as nat);
            let tail = chunks(cs@.skip(end as int), width as nat);
            assert(chunks(rest, width as nat) =~= seq![cs@.subrange(start as int, end as int)]
                + tail);
            assert((seq![cs@.subrange(start as int, end as int)] + tail).map_values(f) =~= seq![
                f(cs@.subrange(start as int, end as int)),
            ] + tail.map_values(f));
        }
        assert(texts(out@) + chunks(cs@.skip(end as int), width as nat).map_values(
            |c: Seq<char>| pad_right(c, width as nat),
        ) =~= all);
        start = end;
    }
    assert(chunks(cs@.skip(n as int), width as nat) =~= Seq::<Seq<char>>::empty());
    assert(texts(out@) =~= all);
    out
}

/// The decimal text of an integer.
pub fn int_to_text(v: i32) -> (r: String)
    ensures
        r@ == int_text(v),
{
    let mut out: Vec<char> = Vec::new();
    if v < 0 {
        out.push('-');
        let m: u32 = if v == i32::MIN { 2147483648u32 } else { (-v) as u32 };
        push_decimal(&mut out, m as usize);
    } else {
        push_decimal(&mut out, v as usize);
    }
    assert(out@ =~= int_text(v));
    string_of_chars(out.as_slice())
}

/// The text `NULL`.
pub fn null_string() -> (r: String)
    ensures
        r@ == null_text(),
{
    let mut out: Vec<char> = Vec::new();
    out.push('N');
    out.push('U');
    out.push('L');
    out.push('L');
    assert(out@ =~= null_text());
    string_of_chars(out.as_slice())
}

/// The lines that a value takes in a column of the given kind and width;
/// `None` stands for `NULL`.
pub fn format_integer_cell(value: Option<i32>, width: usize) -> (r: Vec<String>)
    ensures
        texts(r@) == value_cell(
            ColumnKind::Integer,
            match value {
                Some(v) => int_text(v),
                None => null_text(),
            },
            width as nat,
        ),
{
    let shown = match value {
        Some(v) => int_to_text(v),
        None => null_string(),
    };
    let mut out: Vec<String> = Vec::new();
    let cell = align_right(shown.as_str(), width);
    out.push(cell);
    assert(texts(out@) =~= seq![cell@]);
    out
}

/// The lines that a string value takes in a column of the given width;
/// `None` stands for `NULL`.
pub fn format_text_cell(value: Option<&str>, width: usize) -> (r: Vec<String>)
    requires
        width > 0,
    ensures
        texts(r@) == value_cell(
            ColumnKind::Text,
            match value {
                Some(s) => s@,
                None => null_text(),
            },
            width as nat,
        ),
{
    match value {
        Some(s) => wrap_text(s, width),
        None => {
            let n = null_string();
            wrap_text(n.as_str(), width)
        },
    }
}

/// The models of the cells of a row.
pub open spec fn cell_texts(cells: Seq<Vec<String>>) -> Seq<Seq<Seq<char>>> {
    cells.map_values(|c: Vec<String>| texts(c@))
}

/// The number of lines that a row of cells takes.
pub fn row_lines(cells: &Vec<Vec<String>>) -> (r: usize)
    ensures
        r == row_height(cell_texts(cells@)),
{
    let mut h: usize = 1;
    let mut i: usize = 0;
    while i < cells.len()
        invariant
            i <= cells@.len(),
            h == row_height(cell_texts(cells@).take(i as int)),
            h >= 1,
        decreases cells@.len() - i,
    {
        proof {
            assert(cell_texts(cells@).take(i + 1).drop_last() =~= cell_texts(cells@).take(i as int));
            assert(cell_texts(cells@).take(i + 1).last() == texts(cells@[i as int]@));
        }
        if cells[i].len() > h {
            h = cells[i].len();
        }
        i = i + 1;
    }
    assert(cell_texts(cells@).take(i as int) =~= cell_texts(cells@));
    h
}

/// The piece of a cell shown on a given line of its row.
pub fn line_of_cell(cell: &Vec<String>, line: usize, width: usize) -> (r: String)
    ensures
        r@ == cell_line(texts(cell@), line as int, width as nat),
{
    if line < cell.len() {
        cell[line].clone()
    } else {
        blank(width)
    }
}


/// The text of each line of a row, column by column: line `l` holds, for
/// column `i`, the piece of that column's cell shown on line `l`.
pub open spec fn row_layout(cells: Seq<Seq<Seq<char>>>, widths: Seq<usize>) -> Seq<Seq<Seq<char>>> {
    Seq::new(
        row_height(cells),
        |l: int| Seq::new(cells.len(), |i: int| cell_line(cells[i], l, widths[i] as nat)),
    )
}

/// The lines of a row: for each line, the piece of each column's cell.
pub fn row_segments(cells: &Vec<Vec<String>>, widths: &Vec<usize>) -> (r: Vec<Vec<String>>)
    requires
        cells@.len() == widths@.len(),
    ensures
        r@.len() == row_height(cell_texts(cells@)),
        forall|l: int|
            0 <= l < r@.len() ==> texts(#[trigger] r@[l]@) == row_layout(
                cell_texts(cells@),
                widths@,
            )[l],
{
    let h = row_lines(cells);
    let ghost model = row_layout(cell_texts(cells@), widths@);
    let mut out: Vec<Vec<String>> = Vec::new();
    let mut l: usize = 0;
    while l < h
        invariant
            l <= h,
            h == row_height(cell_texts(cells@)),
            cells@.len() == widths@.len(),
            model == row_layout(cell_texts(cells@), widths@),
            out@.len() == l,
            forall|k: int| 0 <= k < l ==> texts(#[trigger] out@[k]@) == model[k],
        decreases h - l,
    {
        let mut line: Vec<String> = Vec::new();
        let mut i: usize = 0;
        while i < cells.len()
            invariant
                l < h,
                h == row_height(cell_texts(cells@)),
                i <= cells@.len(),
                cells@.len() == widths@.len(),
                model == row_layout(cell_texts(cells@), widths@),
                line@.len() == i,
                forall|j: int| 0 <= j < i ==> (#[trigger] line@[j])@ == model[l as int][j],
            decreases cells@.len() - i,
        {
            let piece = line_of_cell(&cells[i], l, widths[i]);
            proof {
                assert(cell_texts(cells@)[i as int] == texts(cells@[i as int]@));
            }
            line.push(piece);
            i = i + 1;
        }
        proof {
            assert(texts(line@) =~= model[l as int]);
        }
        out.push(line);
        l = l + 1;
    }
    out
}

/// The width of a table whose columns have the given widths, with ` | `
/// between neighbours.
pub open spec fn table_width(widths: Seq<usize>) -> int
    decreases widths.len(),
{
    if widths.len() == 0 {
        0
    } else if widths.len() == 1 {
        widths[0] as int
    } else {
        table_width(widths.drop_last()) + 3 + widths.last()
    }
}

proof fn lemma_table_width_prefix(widths: Seq<usize>, i: int)
    requires
        0 <= i <= widths.len(),
    ensures
        0 <= table_width(widths.take(i)) <= table_width(widths),
    decreases widths.len() - i,
{
    if i < widths.len() {
        lemma_table_width_prefix(widths, i + 1);
        assert(widths.take(i + 1).drop_last() =~= widths.take(i));
    } else {
        assert(widths.take(i) =~= widths);
    }
    lemma_table_width_nonneg(widths.take(i));
}

proof fn lemma_table_width_nonneg(widths: Seq<usize>)
    ensures
        table_width(widths) >= 0,
    decreases widths.len(),
{
    if widths.len() > 1 {
        lemma_table_width_nonneg(widths.drop_last());
    }
}

/// The width of a table is the sum of its columns' widths and three
/// characters (` | `) between each two neighbours: for `n` columns, the sum
/// plus `3 * (n - 1)`; an empty table has width 0.
pub proof fn lemma_table_width_sum(widths: Seq<usize>)
    ensures
        widths.len() == 0 ==> table_width(widths) == 0,
        widths.len() > 0 ==> table_width(widths) == widths.fold_left(0int, |acc: int, w: usize| acc + w)
            + 3 * (widths.len() - 1),
    decreases widths.len(),
{
    if widths.len() > 1 {
        lemma_table_width_sum(widths.drop_last());
        assert(widths.drop_last().len() == widths.len() - 1);
    } else if widths.len() == 1 {
        assert(widths.drop_last().len() == 0);
        assert(widths.drop_last().fold_left(0int, |acc: int, w: usize| acc + w) == 0);
    }
}

/// The width of a table with columns of the given widths.
pub fn total_width(widths: &Vec<usize>) -> (r: usize)
    requires
        table_width(widths@) <= usize::MAX,
    ensures
        r == table_width(widths@),
{
    let mut total: usize = 0;
    let mut i: usize = 0;
    while i < widths.len()
        invariant
            i <= widths@.len(),
            total == table_width(widths@.take(i as int)),
            table_width(widths@) <= usize::MAX,
        decreases widths@.len() - i,
    {
        proof {
            lemma_table_width_prefix(widths@, i + 1);
            assert(widths@.take(i + 1).drop_last() =~= widths@.take(i as int));
        }
        if i > 0 {
            total = total + 3 + widths[i];
        } else {
            total = widths[i];
        }
        i = i + 1;
    }
    assert(widths@.take(i as int) =~= widths@);
    total
}

/// `n` dashes.
pub open spec fn dashes(n: nat) -> Seq<char> {
    Seq::new(n, |i: int| '-')
}

/// The rule drawn under a table's header.
pub fn rule(n: usize) -> (r: String)
    ensures
        r@ == dashes(n as nat),
{
    let mut out: Vec<char> = Vec::new();
    let mut i: usize = 0;
    while i < n
        invariant
            i <= n,
            out@ == dashes(i as nat),
        decreases n - i,
    {
        out.push('-');
        i = i + 1;
        assert(out@ =~= dashes(i as nat));
    }
    string_of_chars(out.as_slice())
}

/// The message shown after an update.
pub open spec fn update_text(n: nat) -> Seq<char> {
    decimal(n) + seq![
        ' ', 'r', 'e', 'c', 'o', 'r', 'd', 's', ' ', 'p', 'r', 'o', 'c', 'e', 's', 's', 'e', 'd',
    ]
}

/// The message shown after an update that touched `n` records.
pub fn update_message(n: usize) -> (r: String)
    ensures
        r@ == update_text(n as nat),
{
    let mut out: Vec<char> = Vec::new();
    push_decimal(&mut out, n);
    let tail: [char; 18] = [
        ' ', 'r', 'e', 'c', 'o', 'r', 'd', 's', ' ', 'p', 'r', 'o', 'c', 'e', 's', 's', 'e', 'd',
    ];
    push_all(&mut out, &tail);
    assert(out@ =~= update_text(n as nat));
    string_of_chars(out.as_slice())
}


/// How a catalogued field type is described: `I32`, `VARCHAR(length)`, or
/// the bare code when it names no type.
pub open spec fn type_label(code: i32, length: i32) -> Seq<char> {
    if code == type_code(Type::I32) {
        seq!['I', '3', '2']
    } else if code == type_code(Type::String) {
        seq!['V', 'A', 'R', 'C', 'H', 'A', 'R', '('] + int_text(length) + seq![')']
    } else {
        int_text(code)
    }
}

/// The description of a catalogued field type.
pub fn type_description(code: i32, length: i32) -> (r: String)
    ensures
        r@ == type_label(code, length),
{
    let mut out: Vec<char> = Vec::new();
    match Type::from_code(code) {
        Some(Type::I32) => {
            out.push('I');
            out.push('3');
            out.push('2');
        },
        Some(Type::String) => {
            let head: [char; 8] = ['V', 'A', 'R', 'C', 'H', 'A', 'R', '('];
            push_all(&mut out, &head);
            let n = int_to_text(length);
            let ncs = chars_of(n.as_str());
            push_all(&mut out, ncs.as_slice());
            out.push(')');
        },
        None => {
            let n = int_to_text(code);
            let ncs = chars_of(n.as_str());
            push_all(&mut out, ncs.as_slice());
        },
    }
    assert(out@ =~= type_label(code, length));
    string_of_chars(out.as_slice())
}

/// A field and its type, as listed in a table's schema.
pub open spec fn field_entry(name: Seq<char>, code: i32, length: i32) -> Seq<char> {
    name + seq![' '] + type_label(code, length)
}

/// The entry of a field in a table's schema listing.
pub fn field_description(name: &str, code: i32, length: i32) -> (r: String)
    ensures
        r@ == field_entry(name@, code, length),
{
    let mut out = chars_of(name);
    out.push(' ');
    let t = type_description(code, length);
    let tcs = chars_of(t.as_str());
    push_all(&mut out, tcs.as_slice());
    assert(out@ =~= field_entry(name@, code, length));
    string_of_chars(out.as_slice())
}

/// The texts joined with `, ` between neighbours.
pub open spec fn joined(parts: Seq<Seq<char>>) -> Seq<char>
    decreases parts.len(),
{
    if parts.len() == 0 {
        Seq::empty()
    } else if parts.len() == 1 {
        parts[0]
    } else {
        joined(parts.drop_last()) + seq![',', ' '] + parts.last()
    }
}

/// The texts joined with `, ` between neighbours.
pub fn join_entries(parts: &Vec<String>) -> (r: String)
    ensures
        r@ == joined(texts(parts@)),
{
    let mut out: Vec<char> = Vec::new();
    let mut i: usize = 0;
    while i < parts.len()
        invariant
            i <= parts@.len(),
            out@ == joined(texts(parts@).take(i as int)),
        decreases parts@.len() - i,
    {
        if i > 0 {
            out.push(',');
            out.push(' ');
        }
        let cs = chars_of(parts[i].as_str());
        push_all(&mut out, cs.as_slice());
        proof {
            assert(texts(parts@).take(i + 1).drop_last() =~= texts(parts@).take(i as int));
            assert(texts(parts@)[i as int] == parts@[i as int]@);
        }
        i = i + 1;
    }
    assert(texts(parts@).take(i as int) =~= texts(parts@));
    string_of_chars(out.as_slice())
}

/// The number of bytes a text takes, as `str::len` gives it.
pub open spec fn byte_len(s: Seq<char>) -> usize {
    vstd::utf8::encode_utf8(s).len() as usize
}

/// The width of a column: the byte length of its header or of its widest value.
pub open spec fn widest(header: Seq<char>, values: Seq<Seq<char>>) -> usize
    decreases values.len(),
{
    if values.len() == 0 {
        byte_len(header)
    } else {
        let w = widest(header, values.drop_last());
        if byte_len(values.last()) > w {
            byte_len(values.last())
        } else {
            w
        }
    }
}

/// A column is as wide as the longest of its header and values, in bytes:
/// no narrower than any of them, and as wide as one of them.
pub proof fn lemma_widest(header: Seq<char>, values: Seq<Seq<char>>)
    ensures
        widest(header, values) >= byte_len(header),
        forall|i: int| 0 <= i < values.len() ==> widest(header, values) >= byte_len(#[trigger] values[i]),
        widest(header, values) == byte_len(header) || exists|i: int|
            0 <= i < values.len() && widest(header, values) == byte_len(#[trigger] values[i]),
    decreases values.len(),
{
    if values.len() > 0 {
        let front = values.drop_last();
        lemma_widest(header, front);
        assert forall|i: int| 0 <= i < values.len() implies widest(header, values) >= byte_len(
            #[trigger] values[i],
        ) by {
            if i < front.len() {
                assert(values[i] == front[i]);
            }
        }
        if widest(header, values) != byte_len(header) {
            if widest(header, values) == byte_len(values.last()) {
                assert(values[values.len() - 1] == values.last());
            } else {
                let i = choose|i: int| 0 <= i < front.len() && widest(header, front) == byte_len(#[trigger] front[i]);
                assert(values[i] == front[i]);
            }
        }
    }
}

/// The entries joined with `, ` between neighbours: as long as the entries
/// together, plus two characters for each gap.
pub proof fn lemma_joined_len(parts: Seq<Seq<char>>)
    ensures
        parts.len() > 0 ==> joined(parts).len() == parts.fold_left(0int, |acc: int, p: Seq<char>| acc + p.len())
            + 2 * (parts.len() - 1),
    decreases parts.len(),
{
    if parts.len() > 1 {
        lemma_joined_len(parts.drop_last());
    } else if parts.len() == 1 {
        assert(parts.drop_last().len() == 0);
        assert(parts.drop_last().fold_left(0int, |acc: int, p: Seq<char>| acc + p.len()) == 0);
    }
}

/// The width of a column with the given header and values.
pub fn column_width(header: &str, values: &Vec<String>) -> (r: usize)
    ensures
        r == widest(header@, texts(values@)),
{
    let mut w: usize = header.len();
    let mut i: usize = 0;
    while i < values.len()
        invariant
            i <= values@.len(),
            w == widest(header@, texts(values@).take(i as int)),
        decreases values@.len() - i,
    {
        let n = values[i].as_str().len();
        proof {
            assert(texts(values@).take(i + 1).drop_last() =~= texts(values@).take(i as int));
            assert(texts(values@).take(i + 1).last() == values@[i as int]@);
        }
        if n > w {
            w = n;
        }
        i = i + 1;
    }
    assert(texts(values@).take(i as int) =~= texts(values@));
    w
}

} // verus!

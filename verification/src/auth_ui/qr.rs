//! A QR code as inline SVG: a few hundred bytes of path data in a document
//! that has to be sent anyway.

use crate::text::{cat3, decimal_of};
use qrcodegen::{DataTooLong, QrCode, QrCodeEcc};
use vstd::prelude::*;

verus! {

/// `qrcodegen::QrCode`: a square of dark and light modules.
#[verifier::external_type_specification]
#[verifier::external_body]
pub struct ExQrCode(qrcodegen::QrCode);

/// `qrcodegen::DataTooLong`: no symbol is large enough.
#[verifier::external_type_specification]
#[verifier::external_body]
pub struct ExDataTooLong(qrcodegen::DataTooLong);

/// The rows of a symbol from the top, each from the left: `true` is dark.
pub uninterp spec fn rows(code: QrCode) -> Seq<Seq<bool>>;

/// The rows of the symbol that `qrcodegen::QrCode::encode_text` makes of a
/// text at medium error correction, or nothing where no symbol holds it.
pub uninterp spec fn symbol(text: Seq<char>) -> Option<Seq<Seq<bool>>>;

/// More characters than the largest symbol holds in any mode.
pub const LONGEST: usize = 7089;

/// `qrcodegen::QrCode::encode_text` at medium error correction: the symbol
/// for this text, or an error where none is large enough.
#[verifier::external_body]
fn encode_text(text: &str) -> (res: Result<QrCode, DataTooLong>)
    requires
        text@.len() <= LONGEST,
    ensures
        match res {
            Ok(code) => symbol(text@) == Some(rows(code)),
            Err(_) => symbol(text@) is None,
        },
{
    QrCode::encode_text(text, QrCodeEcc::Medium)
}

/// `qrcodegen::QrCode::size`: how many rows the symbol has, between 21 and
/// 177.
#[verifier::external_body]
fn size_of(code: &QrCode) -> (res: i32)
    ensures
        res == rows(*code).len(),
        21 <= res <= 177,
{
    code.size()
}

/// `qrcodegen::QrCode::get_module`: whether the module in this column and
/// row is dark. Outside the symbol it is light.
#[verifier::external_body]
fn get_module(code: &QrCode, x: i32, y: i32) -> (res: bool)
    ensures
        res == (0 <= x < rows(*code).len() && 0 <= y < rows(*code).len()
            && rows(*code)[y as int][x as int]),
{
    code.get_module(x, y)
}

/// Why a text has no QR code.
#[derive(Clone, Copy, Debug, PartialEq, Eq, Structural)]
pub enum QrError {
    TooLong,
}

impl QrError {
    /// The error in words.
    pub fn to_string(&self) -> (res: String)
        ensures
            res@ == "the value is too long to encode as a QR code"@,
    {
        "the value is too long to encode as a QR code".to_owned()
    }
}

/// The quiet zone round a symbol, which scanners assume.
pub const QUIET: u64 = 4;

/// One dark module as path data.
pub open spec fn dot_path(x: int, y: int) -> Seq<char> {
    "M"@ + crate::text::decimal((x + QUIET) as nat) + " "@ + crate::text::decimal(
        (y + QUIET) as nat,
    ) + "h1v1h-1z"@
}

/// The first `n` modules of row `y` as path data.
pub open spec fn row_path(row: Seq<bool>, y: int, n: nat) -> Seq<char>
    decreases n,
{
    if n == 0 {
        Seq::empty()
    } else {
        let before = row_path(row, y, (n - 1) as nat);
        if row[n - 1] {
            before + dot_path(n - 1, y)
        } else {
            before
        }
    }
}

/// The first `n` rows as path data, each `rows.len()` modules wide.
pub open spec fn rows_path(rows: Seq<Seq<bool>>, n: nat) -> Seq<char>
    decreases n,
{
    if n == 0 {
        Seq::empty()
    } else {
        rows_path(rows, (n - 1) as nat) + row_path(rows[n - 1], n - 1, rows.len())
    }
}

/// The path data of a whole symbol: its dark modules, row by row.
pub open spec fn symbol_path(rows: Seq<Seq<bool>>) -> Seq<char> {
    rows_path(rows, rows.len())
}

/// The SVG element that draws a symbol on its own white ground.
pub open spec fn drawing(rows: Seq<Seq<bool>>, label: Seq<char>) -> Seq<char> {
    let dimension = crate::text::decimal((rows.len() + 2 * QUIET) as nat);
    "<svg xmlns=\"http://www.w3.org/2000/svg\" viewBox=\"0 0 "@ + dimension + " "@ + dimension
        + "\" width=\"200\" height=\"200\" role=\"img\" aria-label=\""@ + label
        + "\" style=\"background:#fff;border-radius:6px;padding:0\" shape-rendering=\"crispEdges\"><rect width=\""@
        + dimension + "\" height=\""@ + dimension + "\" fill=\"#fff\"/><path d=\""@ + symbol_path(
        rows,
    ) + "\" fill=\"#000\"/></svg>"@
}

fn path_of_dot(x: u64, y: u64) -> (res: String)
    requires
        x < 1000,
        y < 1000,
    ensures
        res@ == dot_path(x as int, y as int),
{
    let px = decimal_of(x + QUIET);
    let py = decimal_of(y + QUIET);
    let mut out = cat3("M", px.as_str(), " ");
    out.append(py.as_str());
    out.append("h1v1h-1z");
    out
}

fn path_of(code: &QrCode) -> (res: String)
    ensures
        res@ == symbol_path(rows(*code)),
{
    let size = size_of(code);
    let ghost all = rows(*code);
    let mut path = String::new();
    let mut y: i32 = 0;
    assert(path@ =~= rows_path(all, 0));
    while y < size
        invariant
            0 <= y <= size <= 177,
            size == all.len(),
            all == rows(*code),
            path@ == rows_path(all, y as nat),
        decreases size - y,
    {
        let ghost before = path@;
        let ghost row = all[y as int];
        let mut x: i32 = 0;
        assert(path@ =~= before + row_path(row, y as int, 0));
        while x < size
            invariant
                0 <= x <= size <= 177,
                0 <= y < size,
                size == all.len(),
                all == rows(*code),
                row == all[y as int],
                path@ == before + row_path(row, y as int, x as nat),
            decreases size - x,
        {
            let ghost so_far = path@;
            if get_module(code, x, y) {
                let module = path_of_dot(x as u64, y as u64);
                path.append(module.as_str());
                assert(row[x as int]);
                assert(path@ =~= before + (row_path(row, y as int, x as nat) + dot_path(
                    x as int,
                    y as int,
                )));
            }
            x = x + 1;
        }
        y = y + 1;
    }
    path
}

/// The SVG for a symbol.
fn draw(code: &QrCode, label: &str) -> (res: String)
    ensures
        res@ == drawing(rows(*code), label@),
{
    let size = size_of(code);
    let dimension = decimal_of(size as u64 + 2 * QUIET);
    let path = path_of(code);
    let mut out = cat3(
        "<svg xmlns=\"http://www.w3.org/2000/svg\" viewBox=\"0 0 ",
        dimension.as_str(),
        " ",
    );
    out.append(dimension.as_str());
    out.append("\" width=\"200\" height=\"200\" role=\"img\" aria-label=\"");
    out.append(label);
    out.append(
        "\" style=\"background:#fff;border-radius:6px;padding:0\" shape-rendering=\"crispEdges\"><rect width=\"",
    );
    out.append(dimension.as_str());
    out.append("\" height=\"");
    out.append(dimension.as_str());
    out.append("\" fill=\"#fff\"/><path d=\"");
    out.append(path.as_str());
    out.append("\" fill=\"#000\"/></svg>");
    out
}

/// The SVG of a text, or nothing where no symbol holds it.
pub open spec fn drawn(text: Seq<char>, label: Seq<char>) -> Option<Seq<char>> {
    if text.len() > LONGEST {
        None
    } else {
        match symbol(text) {
            Some(rows) => Some(drawing(rows, label)),
            None => None,
        }
    }
}

/// Renders `text` as an SVG `<svg>` element. A text that is too long to
/// encode is an error.
pub fn svg(text: &str, label: &str) -> (res: Result<String, QrError>)
    ensures
        match res {
            Ok(rendered) => drawn(text@, label@) == Some(rendered@),
            Err(QrError::TooLong) => drawn(text@, label@) is None,
        },
{
    if text.unicode_len() > LONGEST {
        return Err(QrError::TooLong);
    }
    match encode_text(text) {
        Ok(code) => Ok(draw(&code, label)),
        Err(_) => Err(QrError::TooLong),
    }
}

/// The square that stands for a dark module, four modules from the edge of the picture.
pub open spec fn square_at(x: nat, y: nat) -> Seq<char> {
    seq!['M'] + crate::text::decimal(x + 4) + seq![' '] + crate::text::decimal(y + 4)
        + "h1v1h-1z"@
}

proof fn lemma_row_draws(row: Seq<bool>, y: int, n: nat, x: nat)
    requires
        x < n <= row.len(),
        row[x as int],
        0 <= y,
    ensures
        crate::text::holds(row_path(row, y, n), square_at(x, y as nat)),
    decreases n,
{
    let before = row_path(row, y, (n - 1) as nat);
    if x == n - 1 {
        let dot = dot_path(n - 1, y);
        reveal_strlit("M");
        reveal_strlit(" ");
        assert(dot =~= square_at(x, y as nat));
        assert(dot.subrange(0, dot.len() as int) =~= dot);
        assert(crate::text::stands_at(dot, dot, 0));
        crate::text::law_what_a_part_holds_the_whole_holds(before, dot, square_at(x, y as nat));
    } else {
        lemma_row_draws(row, y, (n - 1) as nat, x);
        crate::text::law_what_a_part_holds_the_whole_holds(before, dot_path(n - 1, y), square_at(x, y as nat));
    }
}

proof fn lemma_rows_draw(rows: Seq<Seq<bool>>, n: nat, x: nat, y: nat)
    requires
        y < n <= rows.len(),
        x < rows.len(),
        rows[y as int].len() == rows.len(),
        rows[y as int][x as int],
    ensures
        crate::text::holds(rows_path(rows, n), square_at(x, y)),
    decreases n,
{
    let before = rows_path(rows, (n - 1) as nat);
    let last = row_path(rows[n - 1], n - 1, rows.len());
    if y == n - 1 {
        lemma_row_draws(rows[n - 1], n - 1, rows.len(), x);
    } else {
        lemma_rows_draw(rows, (n - 1) as nat, x, y);
    }
    crate::text::law_what_a_part_holds_the_whole_holds(before, last, square_at(x, y));
}

/// Every dark module of a symbol is drawn, in its place.
pub proof fn law_every_dark_module_is_drawn(rows: Seq<Seq<bool>>, x: nat, y: nat)
    requires
        x < rows.len(),
        y < rows.len(),
        rows[y as int].len() == rows.len(),
        rows[y as int][x as int],
    ensures
        crate::text::holds(symbol_path(rows), square_at(x, y)),
{
    lemma_rows_draw(rows, rows.len(), x, y);
}

/// How many modules of a row are dark.
pub open spec fn dark_in(row: Seq<bool>) -> nat
    decreases row.len(),
{
    if row.len() == 0 {
        0
    } else {
        dark_in(row.drop_last()) + if row.last() {
            1nat
        } else {
            0nat
        }
    }
}

/// How many squares a path draws: each is closed by a `z`.
pub open spec fn squares_in(path: Seq<char>) -> nat
    decreases path.len(),
{
    if path.len() == 0 {
        0
    } else {
        squares_in(path.drop_last()) + if path.last() == 'z' {
            1nat
        } else {
            0nat
        }
    }
}

proof fn lemma_squares_add_up(a: Seq<char>, b: Seq<char>)
    ensures
        squares_in(a + b) == squares_in(a) + squares_in(b),
    decreases b.len(),
{
    if b.len() == 0 {
        assert(a + b =~= a);
    } else {
        assert((a + b).drop_last() =~= a + b.drop_last());
        lemma_squares_add_up(a, b.drop_last());
    }
}

proof fn lemma_digits_draw_nothing(s: Seq<char>)
    requires
        crate::text::all_digits(s),
    ensures
        squares_in(s) == 0,
    decreases s.len(),
{
    if s.len() > 0 {
        assert(crate::text::ascii_digit(s[s.len() - 1]));
        assert forall|i: int| 0 <= i < s.drop_last().len() implies crate::text::ascii_digit(
            #[trigger] s.drop_last()[i],
        ) by {
            assert(s.drop_last()[i] == s[i]);
        }
        lemma_digits_draw_nothing(s.drop_last());
    }
}

proof fn lemma_a_dot_is_one_square(x: int, y: int)
    ensures
        squares_in(dot_path(x, y)) == 1,
{
    let a = crate::text::decimal((x + QUIET) as nat);
    let b = crate::text::decimal((y + QUIET) as nat);
    crate::text::lemma_decimal_is_read_back((x + QUIET) as nat);
    crate::text::lemma_decimal_is_read_back((y + QUIET) as nat);
    lemma_digits_draw_nothing(a);
    lemma_digits_draw_nothing(b);
    reveal_strlit("M");
    reveal_strlit(" ");
    reveal_strlit("h1v1h-1z");
    assert(squares_in("M"@) == 0) by {
        reveal_with_fuel(squares_in, 2);
    }
    assert(squares_in(" "@) == 0) by {
        reveal_with_fuel(squares_in, 2);
    }
    assert(squares_in("h1v1h-1z"@) == 1) by {
        reveal_with_fuel(squares_in, 9);
    }
    lemma_squares_add_up("M"@, a);
    lemma_squares_add_up("M"@ + a, " "@);
    lemma_squares_add_up("M"@ + a + " "@, b);
    lemma_squares_add_up("M"@ + a + " "@ + b, "h1v1h-1z"@);
}

/// A row draws as many squares as it has dark modules: no light one is drawn.
pub proof fn law_no_light_module_is_drawn(row: Seq<bool>, y: int, n: nat)
    requires
        n <= row.len(),
    ensures
        squares_in(row_path(row, y, n)) == dark_in(row.take(n as int)),
    decreases n,
{
    if n > 0 {
        law_no_light_module_is_drawn(row, y, (n - 1) as nat);
        assert(row.take(n as int).drop_last() =~= row.take(n - 1));
        assert(row.take(n as int).last() == row[n - 1]);
        if row[n - 1] {
            lemma_a_dot_is_one_square(n - 1, y);
            lemma_squares_add_up(row_path(row, y, (n - 1) as nat), dot_path(n - 1, y));
        }
    } else {
        assert(row.take(0).len() == 0);
    }
}

/// A picture is a symbol with its label; what is too long for any symbol has none.
pub proof fn law_a_picture_is_labelled(text: Seq<char>, label: Seq<char>, rows: Seq<Seq<bool>>)
    ensures
        text.len() > 7089 ==> drawn(text, label) is None,
        text.len() <= 7089 ==> (drawn(text, label) is Some <==> symbol(text) is Some),
        drawn(text, label) is Some ==> drawn(text, label) == Some(drawing(symbol(text)->0, label)),
        crate::text::holds(drawing(rows, label), seq!['"'] + label + seq!['"']),
        crate::text::holds(
            drawing(rows, label),
            seq!['"'] + symbol_path(rows) + seq!['"'],
        ),
        crate::text::holds(
            drawing(rows, label),
            "viewBox=\"0 0 "@ + crate::text::decimal(rows.len() + 8) + seq![' ']
                + crate::text::decimal(rows.len() + 8) + seq!['"'],
        ),
{
    let dimension = crate::text::decimal((rows.len() + 2 * QUIET) as nat);
    assert(dimension == crate::text::decimal(rows.len() + 8));
    let open = "<svg xmlns=\"http://www.w3.org/2000/svg\" viewBox=\"0 0 "@;
    let size = "\" width=\"200\" height=\"200\" role=\"img\" aria-label=\""@;
    let style = "\" style=\"background:#fff;border-radius:6px;padding:0\" shape-rendering=\"crispEdges\"><rect width=\""@;
    let height = "\" height=\""@;
    let path = "\" fill=\"#fff\"/><path d=\""@;
    let close = "\" fill=\"#000\"/></svg>"@;
    let d = symbol_path(rows);
    let whole = drawing(rows, label);
    reveal_strlit("<svg xmlns=\"http://www.w3.org/2000/svg\" viewBox=\"0 0 ");
    reveal_strlit("\" width=\"200\" height=\"200\" role=\"img\" aria-label=\"");
    reveal_strlit("\" style=\"background:#fff;border-radius:6px;padding:0\" shape-rendering=\"crispEdges\"><rect width=\"");
    reveal_strlit("\" fill=\"#fff\"/><path d=\"");
    reveal_strlit("\" fill=\"#000\"/></svg>");
    reveal_strlit("viewBox=\"0 0 ");
    reveal_strlit(" ");
    let front = open + dimension + " "@ + dimension + size;
    let at = front.len() - 1;
    let wanted = seq!['"'] + label + seq!['"'];
    assert(whole.subrange(at, at + wanted.len()) =~= wanted);
    assert(crate::text::stands_at(whole, wanted, at));
    let middle = front + label + style + dimension + height + dimension + path;
    let drawn_at = middle.len() - 1;
    let drawn_path = seq!['"'] + d + seq!['"'];
    assert(whole.subrange(drawn_at, drawn_at + drawn_path.len()) =~= drawn_path);
    assert(crate::text::stands_at(whole, drawn_path, drawn_at));
    let view = "viewBox=\"0 0 "@ + dimension + seq![' '] + dimension + seq!['"'];
    let view_at = open.len() - "viewBox=\"0 0 "@.len();
    assert(whole.subrange(view_at, view_at + view.len()) =~= view);
    assert(crate::text::stands_at(whole, view, view_at));
}

} // verus!

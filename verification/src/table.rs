//! The layout of the tables the command-line tool prints row by row: each
//! row is a list of styled pieces of text, printed one after another and
//! ended by a line break.
use vstd::prelude::*;
use vstd::string::StringSliceAdditionalSpecFns;

verus! {

/// How a piece of a table is printed.
#[derive(Debug, Clone, Copy, PartialEq, Eq, Structural)]
pub enum Style {
    /// As it is.
    Plain,
    /// In white.
    White,
    /// In bright black (grey).
    BrightBlack,
}

/// `n` copies of the text.
pub open spec fn repeated(s: Seq<char>, n: nat) -> Seq<char>
    decreases n,
{
    if n == 0 {
        seq![]
    } else {
        repeated(s, (n - 1) as nat) + s
    }
}

/// `a - b`, or 0 where `b` is larger.
pub open spec fn sat_sub(a: int, b: int) -> nat {
    if a >= b {
        (a - b) as nat
    } else {
        0
    }
}

/// The byte length of a text.
pub open spec fn byte_len(s: &str) -> nat {
    s.spec_bytes().len()
}

/// The text and style of each piece.
pub open spec fn piece_views(v: Seq<(String, Style)>) -> Seq<(Seq<char>, Style)> {
    v.map_values(|p: (String, Style)| (p.0@, p.1))
}

/// The pieces of one cell: a space before all but the first, the text,
/// spaces up to the column's width where it has one, and ` |` after all but
/// the last.
pub open spec fn cell_pieces(
    i: int,
    n: int,
    text: &str,
    text_style: Style,
    width: Option<usize>,
) -> Seq<(Seq<char>, Style)> {
    (if i != 0 {
        seq![(seq![' '], Style::Plain)]
    } else {
        seq![]
    }) + seq![(text@, text_style)] + (match width {
        Some(w) => seq![(repeated(seq![' '], sat_sub(w as int, byte_len(text) as int)), Style::Plain)],
        None => seq![],
    }) + (if i + 1 != n {
        seq![(seq![' ', '|'], Style::BrightBlack)]
    } else {
        seq![]
    })
}

/// The printed length of a header cell.
pub open spec fn cell_length(i: int, n: int, text: &str, width: Option<usize>) -> int {
    (if i != 0 {
        1int
    } else {
        0int
    }) + byte_len(text) + (match width {
        Some(w) => sat_sub(w as int, byte_len(text) as int) as int,
        None => 0int,
    }) + (if i + 1 != n {
        2int
    } else {
        0int
    })
}

/// The pieces of the first `k` header cells.
pub open spec fn header_pieces(h: Seq<(&str, Option<usize>)>, k: int) -> Seq<(Seq<char>, Style)>
    decreases k,
{
    if k <= 0 {
        seq![]
    } else {
        header_pieces(h, k - 1) + cell_pieces(
            k - 1,
            h.len() as int,
            h[k - 1].0,
            Style::White,
            h[k - 1].1,
        )
    }
}

/// The pieces of the first `k` cells of a row.
pub open spec fn row_pieces(data: Seq<&str>, widths: Seq<Option<usize>>, k: int) -> Seq<
    (Seq<char>, Style),
>
    decreases k,
{
    if k <= 0 {
        seq![]
    } else {
        row_pieces(data, widths, k - 1) + cell_pieces(
            k - 1,
            data.len() as int,
            data[k - 1],
            Style::Plain,
            widths[k - 1],
        )
    }
}

/// The pieces of the first `k` columns of the line under the header: dashes
/// one shorter than the header cell, then `+`, except for the last column,
/// which gets as many dashes as its width, or five.
pub open spec fn separator_pieces(lengths: Seq<usize>, widths: Seq<Option<usize>>, k: int) -> Seq<
    (Seq<char>, Style),
>
    decreases k,
{
    if k <= 0 {
        seq![]
    } else {
        let i = k - 1;
        separator_pieces(lengths, widths, k - 1) + seq![
            (repeated(seq!['-'], sat_sub(lengths[i] as int, 1)), Style::BrightBlack),
        ] + if i + 1 != lengths.len() {
            seq![(seq!['+'], Style::BrightBlack)]
        } else {
            seq![
                (repeated(
                    seq!['-'],
                    match widths[i] {
                        Some(w) => w as nat,
                        None => 5,
                    },
                ), Style::BrightBlack),
            ]
        }
    }
}

/// A table printed row by row, whose columns keep the widths the header
/// gave them.
pub struct StreamingTable {
    padding: Vec<Option<usize>>,
    lengths: Vec<usize>,
}

/// `n` copies of a one-character text.
fn repeat_str(s: &str, n: usize) -> (r: String)
    ensures
        r@ == repeated(s@, n as nat),
{
    let mut out = String::new();
    let mut i: usize = 0;
    while i < n
        invariant
            i <= n,
            out@ == repeated(s@, i as nat),
        decreases n - i,
    {
        out.append(s);
        i = i + 1;
    }
    out
}

/// The pieces of one cell.
fn cell(i: usize, n: usize, text: &str, text_style: Style, width: Option<usize>, out: &mut Vec<
    (String, Style),
>)
    requires
        i < n,
        byte_len(text) <= usize::MAX,
    ensures
        piece_views(final(out)@) == piece_views(old(out)@) + cell_pieces(
            i as int,
            n as int,
            text,
            text_style,
            width,
        ),
{
    proof {
        reveal_strlit(" ");
        reveal_strlit(" |");
        assert(" "@ =~= seq![' ']);
        assert(" |"@ =~= seq![' ', '|']);
    }
    let ghost start = piece_views(out@);
    let ghost lead = if i != 0 {
        seq![(seq![' '], Style::Plain)]
    } else {
        Seq::<(Seq<char>, Style)>::empty()
    };
    if i != 0 {
        out.push((String::from_str(" "), Style::Plain));
    }
    assert(piece_views(out@) =~= start + lead);
    out.push((String::from_str(text), text_style));
    assert(piece_views(out@) =~= start + lead + seq![(text@, text_style)]);
    let ghost padded = match width {
        Some(w) => seq![(repeated(seq![' '], sat_sub(w as int, byte_len(text) as int)), Style::Plain)],
        None => Seq::<(Seq<char>, Style)>::empty(),
    };
    match width {
        Some(w) => {
            let pad = if w >= text.len() {
                w - text.len()
            } else {
                0
            };
            assert(pad as nat == sat_sub(w as int, byte_len(text) as int));
            let sp = repeat_str(" ", pad);
            assert(sp@ == repeated(seq![' '], sat_sub(w as int, byte_len(text) as int)));
            out.push((sp, Style::Plain));
        },
        None => {},
    }
    assert(piece_views(out@) =~= start + lead + seq![(text@, text_style)] + padded);
    let ghost trail = if i + 1 != n {
        seq![(seq![' ', '|'], Style::BrightBlack)]
    } else {
        Seq::<(Seq<char>, Style)>::empty()
    };
    if i + 1 != n {
        out.push((String::from_str(" |"), Style::BrightBlack));
    }
    assert(piece_views(out@) =~= start + lead + seq![(text@, text_style)] + padded + trail);
}

impl StreamingTable {
    /// The widths of the columns.
    pub closed spec fn spec_padding(&self) -> Seq<Option<usize>> {
        self.padding@
    }

    /// The printed lengths of the header cells.
    pub closed spec fn spec_lengths(&self) -> Seq<usize> {
        self.lengths@
    }

    /// The table for the header: names with optional column widths. Gives
    /// the table and the pieces of the header line.
    pub fn draw_header(header: &Vec<(&str, Option<usize>)>) -> (r: (StreamingTable, Vec<
        (String, Style),
    >))
        requires
            header@.len() < usize::MAX,
            forall|i: int| 0 <= i < header@.len() ==> byte_len(#[trigger] header@[i].0) < usize::MAX / 2,
            forall|i: int|
                0 <= i < header@.len() ==> match (#[trigger] header@[i]).1 {
                    Some(w) => w < usize::MAX / 2,
                    None => true,
                },
        ensures
            piece_views(r.1@) == header_pieces(header@, header@.len() as int),
            r.0.spec_padding() == header@.map_values(|h: (&str, Option<usize>)| h.1),
            r.0.spec_lengths().len() == header@.len(),
            forall|i: int|
                0 <= i < header@.len() ==> (#[trigger] r.0.spec_lengths()[i]) as int == cell_length(
                    i,
                    header@.len() as int,
                    header@[i].0,
                    header@[i].1,
                ),
    {
        let n = header.len();
        let mut out: Vec<(String, Style)> = Vec::new();
        let mut padding: Vec<Option<usize>> = Vec::new();
        let mut lengths: Vec<usize> = Vec::new();
        let mut i: usize = 0;
        assert(piece_views(out@) =~= Seq::<(Seq<char>, Style)>::empty());
        while i < n
            invariant
                i <= n,
                n == header@.len(),
                n < usize::MAX,
                forall|j: int| 0 <= j < header@.len() ==> byte_len(#[trigger] header@[j].0) < usize::MAX / 2,
                forall|j: int|
                    0 <= j < header@.len() ==> match (#[trigger] header@[j]).1 {
                        Some(w) => w < usize::MAX / 2,
                        None => true,
                    },
                piece_views(out@) == header_pieces(header@, i as int),
                padding@ == header@.take(i as int).map_values(|h: (&str, Option<usize>)| h.1),
                lengths@.len() == i,
                forall|j: int|
                    0 <= j < i ==> (#[trigger] lengths@[j]) as int == cell_length(
                        j,
                        n as int,
                        header@[j].0,
                        header@[j].1,
                    ),
            decreases n - i,
        {
            let (name, width) = header[i];
            let ghost before = piece_views(out@);
            cell(i, n, name, Style::White, width, &mut out);
            let mut len: usize = if i != 0 {
                1
            } else {
                0
            };
            assert(byte_len(name) < usize::MAX / 2);
            len = len + name.len();
            match width {
                Some(w) => {
                    if w >= name.len() {
                        len = len + (w - name.len());
                    }
                },
                None => {},
            }
            if i + 1 != n {
                len = len + 2;
            }
            lengths.push(len);
            padding.push(width);
            assert(header@.take(i + 1) =~= header@.take(i as int).push(header@[i as int]));
            assert(padding@ =~= header@.take(i + 1).map_values(|h: (&str, Option<usize>)| h.1));
            i = i + 1;
        }
        assert(header@.take(n as int) =~= header@);
        (StreamingTable { padding, lengths }, out)
    }

    /// The pieces of the line under the header.
    pub fn draw_seperator(&self) -> (r: Vec<(String, Style)>)
        requires
            self.spec_padding().len() == self.spec_lengths().len(),
        ensures
            piece_views(r@) == separator_pieces(
                self.spec_lengths(),
                self.spec_padding(),
                self.spec_lengths().len() as int,
            ),
    {
        proof {
            reveal_strlit("-");
            reveal_strlit("+");
            assert("-"@ =~= seq!['-']);
            assert("+"@ =~= seq!['+']);
        }
        let n = self.lengths.len();
        let mut out: Vec<(String, Style)> = Vec::new();
        let mut i: usize = 0;
        assert(piece_views(out@) =~= Seq::<(Seq<char>, Style)>::empty());
        while i < n
            invariant
                i <= n,
                n == self.lengths@.len(),
                self.padding@.len() == n,
                piece_views(out@) == separator_pieces(self.lengths@, self.padding@, i as int),
            decreases n - i,
        {
            proof {
                reveal_strlit("-");
                reveal_strlit("+");
                assert("-"@ =~= seq!['-']);
                assert("+"@ =~= seq!['+']);
            }
            let ghost before = piece_views(out@);
            let len = self.lengths[i];
            let dashes = if len >= 1 {
                len - 1
            } else {
                0
            };
            out.push((repeat_str("-", dashes), Style::BrightBlack));
            let ghost mid = piece_views(out@);
            assert(mid =~= before + seq![
                (repeated(seq!['-'], sat_sub(self.lengths@[i as int] as int, 1)), Style::BrightBlack),
            ]);
            if i + 1 != n {
                out.push((String::from_str("+"), Style::BrightBlack));
                assert(piece_views(out@) =~= mid + seq![(seq!['+'], Style::BrightBlack)]);
            } else {
                let w = match self.padding[i] {
                    Some(w) => w,
                    None => 5,
                };
                out.push((repeat_str("-", w), Style::BrightBlack));
                assert(piece_views(out@) =~= mid + seq![(repeated(seq!['-'], w as nat), Style::BrightBlack)]);
            }
            assert(piece_views(out@) =~= separator_pieces(
                self.lengths@,
                self.padding@,
                i + 1,
            ));
            i = i + 1;
        }
        out
    }

    /// The pieces of a row: one text per column.
    pub fn draw_row(&self, data: &Vec<&str>) -> (r: Vec<(String, Style)>)
        requires
            data@.len() == self.spec_padding().len(),
            data@.len() < usize::MAX,
            forall|i: int| 0 <= i < data@.len() ==> byte_len(#[trigger] data@[i]) <= usize::MAX,
        ensures
            piece_views(r@) == row_pieces(data@, self.spec_padding(), data@.len() as int),
    {
        let n = data.len();
        let mut out: Vec<(String, Style)> = Vec::new();
        let mut i: usize = 0;
        assert(piece_views(out@) =~= Seq::<(Seq<char>, Style)>::empty());
        while i < n
            invariant
                i <= n,
                n == data@.len(),
                n < usize::MAX,
                self.padding@.len() == n,
                forall|j: int| 0 <= j < data@.len() ==> byte_len(#[trigger] data@[j]) <= usize::MAX,
                piece_views(out@) == row_pieces(data@, self.padding@, i as int),
            decreases n - i,
        {
            cell(i, n, data[i], Style::Plain, self.padding[i], &mut out);
            i = i + 1;
        }
        out
    }
}

} // verus!

//! The codec: a grid as one line of text, in three formats.
//!
//! A code is `TAG;W;H;BODY`. Format `Q1` writes the squares as text, one
//! field for each run of equal squares. Format `Q2` writes them as byte
//! numbers, compressed and in base64. Format `V3` is read only: one
//! character for each square, and references back to squares already read.

use vstd::prelude::*;
use crate::cell_data::CELL_TYPE_COUNT;
use crate::cell_data::CellType;
use crate::cell_data::ENEMY;
use crate::cell_data::GENERATOR;
use crate::cell_data::MOVER;
use crate::cell_data::PUSH;
use crate::cell_data::ROTATOR_CCW;
use crate::cell_data::ROTATOR_CW;
use crate::cell_data::SLIDE;
use crate::cell_data::TRASH;
use crate::cell_data::WALL;
use crate::cells::Board;
use crate::cells::Cell;
use crate::cells::Grid;
use crate::direction::Direction;
use crate::numerals::capped;
use crate::numerals::decode_ch_74;
use crate::numerals::decode_digits;
use crate::numerals::digit_char;
use crate::numerals::digit_value;
use crate::numerals::encode_ch_62;
use crate::numerals::is_digit;
use crate::numerals::number;
use crate::numerals::numeral62;
use crate::numerals::push_num_62;
use crate::numerals::read_num_s64;
use crate::numerals::read_number;
use crate::numerals::encode_num_s64;
use crate::numerals::s64_bytes;
use crate::outside::base64_bytes;
use crate::outside::base64_decode;
use crate::outside::base64_encode;
use crate::outside::base64_text;
use crate::outside::is_base64_char;
use crate::outside::zlib_compress;
use crate::outside::zlib_deflated;
use crate::outside::zlib_decompress;
use crate::outside::zlib_inflated;
use crate::runs::code_cell;
use crate::runs::fresh_board;
use crate::runs::plain_row;
use crate::roundtrip::lemma_q2_round_trip;
use crate::runs::cell_of;
use crate::runs::group_runs;
use crate::runs::laid_out;
use crate::runs::lay;
use crate::runs::repeated;
use crate::runs::runs;
use crate::runs::runs_view;
use crate::text::find;
use crate::text::join;
use crate::text::lemma_find_is;
use crate::text::split;
use crate::text::split_fields;
use crate::text::to_chars;
use crate::text::to_text;
use crate::text::trim;
use crate::text::trimmed;

verus! {

/// Why a code could not be read.
#[derive(Debug, Clone, Copy, PartialEq, Eq, Structural)]
pub enum CodeError {
    /// The code does not begin with a tag.
    MissingType,
    /// The width is missing, is not a number, or is 0.
    MissingWidth,
    /// The height is missing, is not a number, or is 0, or the grid would
    /// have more squares than can be stored.
    MissingHeight,
    /// The code ends before the cell data.
    MissingCellData,
    /// The tag is none of `Q1`, `Q2` and `V3`.
    UnknownCodeType,
    /// The cell data of a `Q2` code is no base64 text.
    InvalidBase64,
    /// The cell data cannot be read.
    InvalidCellData,
}

impl CodeError {
    /// The error as a short text.
    pub open spec fn spec_message(self) -> Seq<char> {
        match self {
            CodeError::MissingType => "missing type specifier"@,
            CodeError::MissingWidth => "missing width"@,
            CodeError::MissingHeight => "missing height"@,
            CodeError::MissingCellData => "missing cell data"@,
            CodeError::UnknownCodeType => "unknown code type"@,
            CodeError::InvalidBase64 => "invalid base64"@,
            CodeError::InvalidCellData => "invalid cell data"@,
        }
    }

    /// The error as a short text.
    pub fn message(self) -> (text: &'static str)
        ensures
            text@ == self.spec_message(),
    {
        match self {
            CodeError::MissingType => "missing type specifier",
            CodeError::MissingWidth => "missing width",
            CodeError::MissingHeight => "missing height",
            CodeError::MissingCellData => "missing cell data",
            CodeError::UnknownCodeType => "unknown code type",
            CodeError::InvalidBase64 => "invalid base64",
            CodeError::InvalidCellData => "invalid cell data",
        }
    }
}

/// The text of a square in format `Q1`: nothing for an empty square, else
/// the type with 62 digits and then the direction as one digit.
pub open spec fn q1_token(code: nat) -> Seq<char> {
    if code == 0 {
        Seq::empty()
    } else {
        numeral62(((code - 1) / 4) as nat).push(digit_char((code - 1) % 4))
    }
}

/// The text of a run in format `Q1`: the text of the square, and for a run
/// of more than one square a `+` and the count with 62 digits.
pub open spec fn q1_group(group: (nat, nat)) -> Seq<char> {
    if group.1 > 1 {
        q1_token(group.0) + seq!['+'] + numeral62(group.1)
    } else {
        q1_token(group.0)
    }
}

/// The texts of the runs, one for each.
pub open spec fn q1_groups(groups: Seq<(nat, nat)>) -> Seq<Seq<char>> {
    Seq::new(groups.len(), |k: int| q1_group(groups[k]))
}

/// The fields of the code of a board in format `Q1`: the tag, the width,
/// the height, and one field for each run of squares.
pub open spec fn q1_fields(b: Board) -> Seq<Seq<char>> {
    seq![seq!['Q', '1'], numeral62(b.width as nat), numeral62(b.height as nat)] + q1_groups(
        runs(b.squares()),
    )
}

/// The code of a board in format `Q1`.
pub open spec fn q1_text(b: Board) -> Seq<char> {
    join(q1_fields(b), ';')
}

/// Appends the text of one run in format `Q1`.
fn push_q1_group(out: &mut Vec<char>, code: usize, count: usize)
    requires
        code <= 262144,
    ensures
        final(out)@ == old(out)@ + q1_group((code as nat, count as nat)),
{
    let ghost start = out@;
    if code > 0 {
        push_num_62(out, (code - 1) / 4);
        out.push(encode_ch_62((code - 1) % 4));
    }
    proof {
        assert(out@ == start + q1_token(code as nat));
    }
    if count > 1 {
        out.push('+');
        push_num_62(out, count);
        proof {
            assert(out@ == start + (q1_token(code as nat) + seq!['+'] + numeral62(count as nat)));
        }
    }
}

/// Writes the grid as a code in format `Q1`.
pub fn export_q1(grid: &Grid) -> (result: String)
    requires
        grid.wf(),
    ensures
        result@ == q1_text(grid@),
{
    let squares = grid.to_vec();
    let groups = group_runs(squares.as_slice());
    let ghost parts = q1_fields(grid@);
    let ghost texts = q1_groups(runs(grid@.squares()));
    let mut out: Vec<char> = Vec::new();
    out.push('Q');
    out.push('1');
    proof {
        assert(out@ == seq!['Q', '1']);
        assert(parts.take(1) == seq![seq!['Q', '1']]);
        assert(join(parts.take(1), ';') == seq!['Q', '1']);
    }
    out.push(';');
    push_num_62(&mut out, grid.width());
    proof {
        assert(parts.take(2).drop_last() == parts.take(1));
        assert(out@ == join(parts.take(2), ';'));
    }
    out.push(';');
    push_num_62(&mut out, grid.height());
    proof {
        assert(parts.take(3).drop_last() == parts.take(2));
        assert(out@ == join(parts.take(3), ';'));
    }
    let mut k: usize = 0;
    while k < groups.len()
        invariant
            k <= groups@.len(),
            runs_view(groups@) == runs(grid@.squares()),
            texts == q1_groups(runs(grid@.squares())),
            parts == q1_fields(grid@),
            parts.len() == 3 + groups@.len(),
            out@ == join(parts.take(3 + k), ';'),
            forall|j: int| 0 <= j < groups@.len() ==> (#[trigger] groups@[j]).0 <= 262144,
        decreases groups@.len() - k,
    {
        let ghost before = out@;
        out.push(';');
        let (code, count) = groups[k];
        push_q1_group(&mut out, code, count);
        proof {
            assert(runs_view(groups@)[k as int] == (code as nat, count as nat));
            assert(parts[3 + k] == texts[k as int]);
            assert(parts.take(3 + k + 1).drop_last() == parts.take(3 + k));
            assert(parts.take(3 + k + 1).last() == parts[3 + k]);
            assert(out@ == before + seq![';'] + q1_group((code as nat, count as nat)));
        }
        k = k + 1;
    }
    proof {
        assert(parts.take(parts.len() as int) == parts);
    }
    to_text(out.as_slice())
}

/// Whether a grid of the given dimensions can be stored, and a body of
/// format `Q2` for it unpacked: it has at most `isize::MAX / 3` squares.
pub open spec fn area_fits(width: nat, height: nat) -> bool {
    width * height <= isize::MAX / 3
}

/// The dimension that a field of the header gives: its number in the given
/// base, which must not be 0.
pub open spec fn dimension(field: Seq<char>, base: int) -> Option<nat> {
    match number(field, base) {
        Some(n) => if n > 0 {
            Some(n)
        } else {
            None
        },
        None => None,
    }
}

/// The board of the given dimensions that a stream of squares fills, row
/// by row from the bottom left. Squares beyond the board are left out, and
/// squares that the stream does not reach are empty.
pub open spec fn board_of_stream(width: nat, height: nat, stream: Seq<Option<Cell>>) -> Board {
    Board::of_squares(width as int, height as int, laid_out(stream, width * height))
}

/// The square that a token of format `Q1` stands for: the last character is
/// the direction, which must be a digit below 4, and what stands before it
/// is the type with 62 digits, which must be a type of the catalog. Any
/// other token stands for an empty square, as the empty token does.
pub open spec fn q1_cell(token: Seq<char>) -> Option<Cell> {
    if token.len() == 0 {
        None
    } else if is_digit(token.last(), 4) && number(token.drop_last(), 62) is Some && number(
        token.drop_last(),
        62,
    )->0 < CELL_TYPE_COUNT {
        Some(
            Cell::spec_new(
                number(token.drop_last(), 62)->0 as CellType,
                Direction::from_turns(digit_value(token.last())->0),
            ),
        )
    } else {
        None
    }
}

/// The run that a field of format `Q1` stands for: a token, and behind a
/// `+` the count with 62 digits; without `+` the count is 1. `None` where
/// the count cannot be read.
pub open spec fn q1_run(field: Seq<char>) -> Option<(Option<Cell>, nat)> {
    let p = find(field, '+', 0);
    if p < 0 || p >= field.len() {
        Some((q1_cell(field), 1))
    } else {
        match number(field.skip(p + 1), 62) {
            Some(n) => Some((q1_cell(field.take(p)), n)),
            None => None,
        }
    }
}

/// The stream of squares that the fields of a body in format `Q1` stand
/// for; `None` where one of them cannot be read.
pub open spec fn q1_stream(fields: Seq<Seq<char>>) -> Option<Seq<Option<Cell>>>
    decreases fields.len(),
{
    if fields.len() == 0 {
        Some(Seq::empty())
    } else {
        match (q1_stream(fields.drop_last()), q1_run(fields.last())) {
            (Some(front), Some(run)) => Some(front + repeated(run.0, run.1)),
            _ => None,
        }
    }
}

/// The board that a body in format `Q1` stands for.
pub open spec fn q1_board(width: nat, height: nat, fields: Seq<Seq<char>>) -> Result<
    Board,
    CodeError,
> {
    match q1_stream(fields) {
        Some(stream) => Ok(board_of_stream(width, height, stream)),
        None => Err(CodeError::InvalidCellData),
    }
}

/// Whether what was read is what was to be read: the grid of that board, or
/// that error.
pub open spec fn reads_as(r: Result<Grid, CodeError>, expected: Result<Board, CodeError>) -> bool {
    match r {
        Ok(g) => g.wf() && g.tick_count() == 0 && expected == Ok::<Board, CodeError>(g@),
        Err(e) => expected == Err::<Board, CodeError>(e),
    }
}

/// The texts of the fields that `fields` marks in `s`.
pub open spec fn field_texts(s: Seq<char>, fields: Seq<(usize, usize)>) -> Seq<Seq<char>> {
    Seq::new(fields.len(), |k: int| s.subrange(fields[k].0 as int, fields[k].1 as int))
}

/// Where one of the first fields cannot be read, the body cannot be read.
pub proof fn lemma_q1_stream_prefix(fields: Seq<Seq<char>>, k: int)
    requires
        0 <= k <= fields.len(),
        q1_stream(fields.take(k)) is None,
    ensures
        q1_stream(fields) is None,
    decreases fields.len() - k,
{
    if k < fields.len() {
        assert(fields.take(k + 1).drop_last() == fields.take(k));
        lemma_q1_stream_prefix(fields, k + 1);
    } else {
        assert(fields.take(k) == fields);
    }
}

/// Finds the first `sep` in the part `lo..hi` of `s`; returns `hi` if there
/// is none.
fn find_char(s: &[char], lo: usize, hi: usize, sep: char) -> (p: usize)
    requires
        lo <= hi <= s@.len(),
    ensures
        lo <= p <= hi,
        p - lo == find(s@.subrange(lo as int, hi as int), sep, 0),
{
    let mut p: usize = lo;
    while p < hi && s[p] != sep
        invariant
            lo <= p <= hi <= s@.len(),
            forall|j: int| lo <= j < p ==> s@[j] != sep,
        decreases hi - p,
    {
        p = p + 1;
    }
    proof {
        let part = s@.subrange(lo as int, hi as int);
        assert forall|j: int| 0 <= j < p - lo implies part[j] != sep by {
            assert(part[j] == s@[lo + j]);
        }
        lemma_find_is(part, sep, 0, p - lo);
    }
    p
}

/// Reads the part `lo..hi` of `s` as a token of format `Q1`.
fn read_q1_cell(s: &[char], lo: usize, hi: usize) -> (cell: Option<Cell>)
    requires
        lo <= hi <= s@.len(),
    ensures
        cell == q1_cell(s@.subrange(lo as int, hi as int)),
{
    if lo == hi {
        return None;
    }
    let ghost token = s@.subrange(lo as int, hi as int);
    proof {
        assert(token.last() == s@[hi - 1]);
        assert(token.drop_last() == s@.subrange(lo as int, hi - 1));
    }
    match decode_ch_74(s[hi - 1]) {
        Some(d) => {
            if d < 4 {
                match decode_digits(s, lo, hi - 1, 62) {
                    Some(id) => {
                        if id < CELL_TYPE_COUNT as usize {
                            Some(Cell::new(id as CellType, Direction::from_u8(d as u8)))
                        } else {
                            None
                        }
                    },
                    None => None,
                }
            } else {
                None
            }
        },
        None => None,
    }
}

/// A row of `n` empty squares.
fn empty_row(n: usize) -> (row: Vec<Option<Cell>>)
    ensures
        row@ == laid_out(Seq::empty(), n as nat),
{
    let mut row: Vec<Option<Cell>> = Vec::new();
    let mut i: usize = 0;
    while i < n
        invariant
            i <= n,
            row@.len() == i,
            forall|j: int| 0 <= j < i ==> row@[j] is None,
        decreases n - i,
    {
        row.push(None);
        i = i + 1;
    }
    proof {
        assert(row@ =~= laid_out(Seq::empty(), n as nat));
    }
    row
}

/// Reads the fields `from..` of a code in format `Q1` as runs of squares,
/// and fills a grid of the given dimensions with them.
fn q1_grid(width: usize, height: usize, s: &[char], fields: &[(usize, usize)], from: usize) -> (r:
    Result<Grid, CodeError>)
    requires
        width > 0,
        height > 0,
        area_fits(width as nat, height as nat),
        from <= fields@.len(),
        forall|k: int|
            0 <= k < fields@.len() ==> (#[trigger] fields@[k]).0 <= fields@[k].1 <= s@.len(),
    ensures
        reads_as(
            r,
            q1_board(width as nat, height as nat, field_texts(s@, fields@).skip(from as int)),
        ),
{
    let ghost texts = field_texts(s@, fields@).skip(from as int);
    let n: usize = width * height;
    let mut row = empty_row(n);
    let mut pos: usize = 0;
    let ghost mut stream: Seq<Option<Cell>> = Seq::empty();
    let mut k: usize = from;
    proof {
        assert(texts.take(0) =~= Seq::<Seq<char>>::empty());
    }
    while k < fields.len()
        invariant
            from <= k <= fields@.len(),
            n == width * height,
            texts == field_texts(s@, fields@).skip(from as int),
            forall|j: int|
                0 <= j < fields@.len() ==> (#[trigger] fields@[j]).0 <= fields@[j].1 <= s@.len(),
            q1_stream(texts.take(k - from)) == Some(stream),
            row@ == laid_out(stream, n as nat),
            row@.len() == n,
            pos == if stream.len() < n {
                stream.len()
            } else {
                n as nat
            },
        decreases fields@.len() - k,
    {
        let (lo, hi) = fields[k];
        let ghost field = s@.subrange(lo as int, hi as int);
        proof {
            assert(texts.take(k - from + 1).drop_last() == texts.take(k - from));
            assert(texts.take(k - from + 1).last() == field);
        }
        let p = find_char(s, lo, hi, '+');
        let cell: Option<Cell>;
        let count: usize;
        let ghost length: nat;
        if p >= hi {
            cell = read_q1_cell(s, lo, hi);
            count = 1;
            proof {
                length = 1;
            }
        } else {
            proof {
                assert(field.skip(p - lo + 1) == s@.subrange(p + 1, hi as int));
                assert(field.take(p - lo) == s@.subrange(lo as int, p as int));
            }
            match decode_digits(s, p + 1, hi, 62) {
                Some(c) => {
                    cell = read_q1_cell(s, lo, p);
                    count = c;
                    proof {
                        length = number(s@.subrange(p + 1, hi as int), 62)->0;
                    }
                },
                None => {
                    proof {
                        lemma_q1_stream_prefix(texts, k - from + 1);
                    }
                    return Err(CodeError::InvalidCellData);
                },
            }
        }
        pos = lay(&mut row, pos, cell, count, Ghost(stream), Ghost(length));
        proof {
            stream = stream + repeated(cell, length);
        }
        k = k + 1;
    }
    proof {
        assert(texts.take(texts.len() as int) == texts);
    }
    Ok(Grid::from_squares(width, height, row))
}

/// Reads a body in format `Q1`, the fields with the runs of squares
/// between semicolons, into a grid of the given dimensions.
pub fn decode_q1(width: usize, height: usize, body: &str) -> (r: Result<Grid, CodeError>)
    requires
        width > 0,
        height > 0,
        area_fits(width as nat, height as nat),
    ensures
        reads_as(r, q1_board(width as nat, height as nat, split(body@, ';'))),
{
    let chars = to_chars(body);
    let s = chars.as_slice();
    let fields = split_fields(s, 0, s.len(), ';');
    proof {
        assert(s@.subrange(0, s@.len() as int) == s@);
        assert(field_texts(s@, fields@) =~= split(body@, ';'));
        assert(field_texts(s@, fields@).skip(0) == field_texts(s@, fields@));
    }
    q1_grid(width, height, s, fields.as_slice(), 0)
}

/// The stream of squares that the bytes of format `Q2` stand for, from
/// position `at` on and behind the squares `acc`: byte numbers, each the code
/// of a square, and where the separator `0xff` follows, a second byte number,
/// the count of squares of that code. `None` where the bytes cannot be read
/// so.
pub open spec fn q2_stream(s: Seq<u8>, at: int, acc: Seq<Option<Cell>>) -> Option<
    Seq<Option<Cell>>,
>
    decreases s.len() - at,
{
    if at < 0 || at >= s.len() {
        Some(acc)
    } else {
        match read_number(s, at, 0) {
            None => None,
            Some(value) => {
                let p = value.1;
                if p <= at || p > s.len() {
                    None
                } else if p < s.len() && s[p] == 0xff {
                    match read_number(s, p + 1, 0) {
                        None => None,
                        Some(count) => if count.1 <= p || count.1 > s.len() {
                            None
                        } else {
                            q2_stream(s, count.1, acc + repeated(cell_of(value.0), count.0))
                        },
                    }
                } else {
                    q2_stream(s, p, acc + repeated(cell_of(value.0), 1))
                }
            },
        }
    }
}

/// The board that the unpacked bytes of a body in format `Q2` stand for.
pub open spec fn q2_cells(width: nat, height: nat, raw: Seq<u8>) -> Result<Board, CodeError> {
    match q2_stream(raw, 0, Seq::empty()) {
        Some(stream) => Ok(board_of_stream(width, height, stream)),
        None => Err(CodeError::InvalidCellData),
    }
}

/// The board that the packed bytes of a body in format `Q2` stand for:
/// they must unpack to no more than three bytes for each square.
pub open spec fn q2_packed(width: nat, height: nat, packed: Seq<u8>) -> Result<Board, CodeError> {
    match zlib_inflated(packed) {
        Some(raw) => if raw.len() <= 3 * (width * height) {
            q2_cells(width, height, raw)
        } else {
            Err(CodeError::InvalidCellData)
        },
        None => Err(CodeError::InvalidCellData),
    }
}

/// The board that a body in format `Q2` stands for.
pub open spec fn q2_board(width: nat, height: nat, body: Seq<char>) -> Result<Board, CodeError> {
    match base64_bytes(body) {
        Some(packed) => q2_packed(width, height, packed),
        None => Err(CodeError::InvalidBase64),
    }
}

/// Reads the unpacked bytes of a body in format `Q2` into a grid of the
/// given dimensions.
pub fn decode_q2_cells(width: usize, height: usize, raw: &[u8]) -> (r: Result<Grid, CodeError>)
    requires
        width > 0,
        height > 0,
        area_fits(width as nat, height as nat),
    ensures
        reads_as(r, q2_cells(width as nat, height as nat, raw@)),
{
    let n: usize = width * height;
    let mut row = empty_row(n);
    let mut pos: usize = 0;
    let ghost mut stream: Seq<Option<Cell>> = Seq::empty();
    let mut at: usize = 0;
    while at < raw.len()
        invariant
            at <= raw@.len(),
            n == width * height,
            q2_stream(raw@, 0, Seq::empty()) == q2_stream(raw@, at as int, stream),
            row@ == laid_out(stream, n as nat),
            row@.len() == n,
            pos == if stream.len() < n {
                stream.len()
            } else {
                n as nat
            },
        decreases raw@.len() - at,
    {
        match read_num_s64(raw, at) {
            None => {
                return Err(CodeError::InvalidCellData);
            },
            Some((value, p)) => {
                let ghost code = read_number(raw@, at as int, 0)->0;
                let cell = if value == usize::MAX {
                    None
                } else {
                    code_cell(value)
                };
                proof {
                    assert(cell == cell_of(code.0));
                }
                if p < raw.len() && raw[p] == 0xff {
                    match read_num_s64(raw, p + 1) {
                        None => {
                            return Err(CodeError::InvalidCellData);
                        },
                        Some((count, next)) => {
                            let ghost length = read_number(raw@, p + 1, 0)->0;
                            pos = lay(&mut row, pos, cell, count, Ghost(stream), Ghost(length.0));
                            proof {
                                stream = stream + repeated(cell, length.0);
                            }
                            at = next;
                        },
                    }
                } else {
                    pos = lay(&mut row, pos, cell, 1, Ghost(stream), Ghost(1));
                    proof {
                        stream = stream + repeated(cell, 1);
                    }
                    at = p;
                }
            },
        }
    }
    Ok(Grid::from_squares(width, height, row))
}

/// Unpacks the packed bytes of a body in format `Q2` and reads them into a
/// grid of the given dimensions.
pub fn decode_q2_packed(width: usize, height: usize, packed: &[u8]) -> (r: Result<Grid, CodeError>)
    requires
        width > 0,
        height > 0,
        area_fits(width as nat, height as nat),
    ensures
        reads_as(r, q2_packed(width as nat, height as nat, packed@)),
{
    let n: usize = width * height;
    match zlib_decompress(packed, 3 * n) {
        Ok(raw) => decode_q2_cells(width, height, raw.as_slice()),
        Err(_) => Err(CodeError::InvalidCellData),
    }
}

/// Reads a body in format `Q2`, base64 text of packed bytes, into a grid of
/// the given dimensions.
pub fn decode_q2(width: usize, height: usize, input: &str) -> (r: Result<Grid, CodeError>)
    requires
        width > 0,
        height > 0,
        area_fits(width as nat, height as nat),
    ensures
        reads_as(r, q2_board(width as nat, height as nat, input@)),
{
    match base64_decode(input) {
        Ok(packed) => decode_q2_packed(width, height, packed.as_slice()),
        Err(_) => Err(CodeError::InvalidBase64),
    }
}

/// The type that a character of format `V3` stands for, by the number
/// `(value / 2) % 9` of its digit value.
pub open spec fn v3_type(k: int) -> CellType {
    if k == 0 {
        GENERATOR
    } else if k == 1 {
        ROTATOR_CW
    } else if k == 2 {
        ROTATOR_CCW
    } else if k == 3 {
        MOVER
    } else if k == 4 {
        SLIDE
    } else if k == 5 {
        PUSH
    } else if k == 6 {
        WALL
    } else if k == 7 {
        ENEMY
    } else {
        TRASH
    }
}

/// The square that a digit value of format `V3` stands for: below 72 a
/// cell, of the type that `v3_type` gives and the direction `value / 18`;
/// from 72 on an empty square.
pub open spec fn v3_cell(value: usize) -> Option<Cell> {
    if value < 72 {
        Some(
            Cell::spec_new(
                v3_type(((value / 2) % 9) as int),
                Direction::from_turns((value / 18) as int),
            ),
        )
    } else {
        None
    }
}

/// The squares `acc` with `count` more, each a copy of the square that
/// stands `offset + 1` squares before it.
pub open spec fn copied(acc: Seq<usize>, offset: nat, count: nat) -> Seq<usize>
    decreases count,
{
    if count == 0 || offset >= acc.len() {
        acc
    } else {
        copied(acc.push(acc[acc.len() - 1 - offset]), offset, (count - 1) as nat)
    }
}

/// The squares after a reference back with the numbers `offset` and
/// `length`: `length + 1` squares are copied from `offset + 1` squares back.
/// `None` where there are not that many squares to go back, and where the
/// squares would not fit the `cap`.
pub open spec fn referred(acc: Seq<usize>, cap: nat, offset: nat, length: nat) -> Option<
    Seq<usize>,
> {
    if offset < acc.len() && acc.len() + length + 1 <= cap {
        Some(copied(acc, offset, length + 1))
    } else {
        None
    }
}

/// The first position from `from` on that holds a bracket, or the length of
/// `s`.
pub open spec fn span_end(s: Seq<char>, from: int) -> int
    decreases s.len() - from,
{
    if from < 0 || from >= s.len() {
        s.len() as int
    } else if s[from] == '(' || s[from] == ')' {
        from
    } else {
        span_end(s, from + 1)
    }
}

/// The squares, as digit values, that a body in format `V3` stands for,
/// from position `at` on and behind the squares `acc`; there may be no more
/// than `cap` of them. A digit of the 74-digit alphabet is one square. `)`
/// and two digits, `(`, a number, `)` and a digit, and `(`, a number, `(`, a
/// number and `)` are references back, with an offset and a length. `None`
/// where the body cannot be read so.
pub open spec fn v3_stream(s: Seq<char>, at: int, acc: Seq<usize>, cap: nat) -> Option<Seq<usize>>
    decreases s.len() - at,
{
    if at < 0 || at >= s.len() {
        Some(acc)
    } else if s[at] == ')' {
        if at + 2 < s.len() && digit_value(s[at + 1]) is Some && digit_value(s[at + 2]) is Some {
            match referred(
                acc,
                cap,
                digit_value(s[at + 1])->0 as nat,
                digit_value(s[at + 2])->0 as nat,
            ) {
                Some(next) => v3_stream(s, at + 3, next, cap),
                None => None,
            }
        } else {
            None
        }
    } else if s[at] == '(' {
        let e = span_end(s, at + 1);
        if e <= at || e >= s.len() {
            None
        } else {
            match number(s.subrange(at + 1, e), 74) {
                None => None,
                Some(offset) => if s[e] == ')' {
                    if e + 1 < s.len() && digit_value(s[e + 1]) is Some {
                        match referred(acc, cap, offset, digit_value(s[e + 1])->0 as nat) {
                            Some(next) => v3_stream(s, e + 2, next, cap),
                            None => None,
                        }
                    } else {
                        None
                    }
                } else {
                    let e2 = find(s, ')', e + 1);
                    if e2 <= e || e2 >= s.len() {
                        None
                    } else {
                        match number(s.subrange(e + 1, e2), 74) {
                            None => None,
                            Some(length) => match referred(acc, cap, offset, length) {
                                Some(next) => v3_stream(s, e2 + 1, next, cap),
                                None => None,
                            },
                        }
                    }
                },
            }
        }
    } else {
        match digit_value(s[at]) {
            None => None,
            Some(value) => if acc.len() < cap {
                v3_stream(s, at + 1, acc.push(value as usize), cap)
            } else {
                None
            },
        }
    }
}

/// The squares of a board as format `V3` gives them.
pub open spec fn v3_squares(values: Seq<usize>, n: nat) -> Seq<Option<Cell>> {
    Seq::new(
        n,
        |i: int|
            if i < values.len() {
                v3_cell(values[i])
            } else {
                None
            },
    )
}

/// The board that a body in format `V3` stands for. The body may not hold
/// more squares than the board has.
pub open spec fn v3_board(width: nat, height: nat, body: Seq<char>) -> Result<Board, CodeError> {
    match v3_stream(body, 0, Seq::empty(), width * height) {
        Some(values) => Ok(
            Board::of_squares(width as int, height as int, v3_squares(values, width * height)),
        ),
        None => Err(CodeError::InvalidCellData),
    }
}

/// The type that a character of format `V3` stands for.
fn v3_cell_type(k: usize) -> (id: CellType)
    ensures
        id == v3_type(k as int),
{
    if k == 0 {
        GENERATOR
    } else if k == 1 {
        ROTATOR_CW
    } else if k == 2 {
        ROTATOR_CCW
    } else if k == 3 {
        MOVER
    } else if k == 4 {
        SLIDE
    } else if k == 5 {
        PUSH
    } else if k == 6 {
        WALL
    } else if k == 7 {
        ENEMY
    } else {
        TRASH
    }
}

/// The position of the first bracket in the part `from..` of `s`, or the
/// length of `s`.
fn find_bracket(s: &[char], from: usize) -> (e: usize)
    requires
        from <= s@.len(),
    ensures
        from <= e <= s@.len(),
        e == span_end(s@, from as int),
{
    let mut e: usize = from;
    while e < s.len() && s[e] != '(' && s[e] != ')'
        invariant
            from <= e <= s@.len(),
            span_end(s@, from as int) == span_end(s@, e as int),
        decreases s@.len() - e,
    {
        e = e + 1;
    }
    e
}

/// Appends to the squares what a reference back with the numbers `offset`
/// and `length` copies; says whether it could.
fn refer(acc: &mut Vec<usize>, cap: usize, offset: usize, length: usize) -> (ok: bool)
    requires
        old(acc)@.len() <= cap,
    ensures
        ok ==> referred(old(acc)@, cap as nat, offset as nat, length as nat) == Some(final(acc)@),
        !ok ==> referred(old(acc)@, cap as nat, offset as nat, length as nat) is None,
        !ok ==> final(acc)@ == old(acc)@,
        final(acc)@.len() <= cap,
{
    let len = acc.len();
    if offset >= len || length >= cap - len {
        return false;
    }
    let count = length + 1;
    let mut i: usize = 0;
    while i < count
        invariant
            i <= count,
            offset < old(acc)@.len(),
            acc@.len() == old(acc)@.len() + i,
            old(acc)@.len() + count <= cap,
            copied(old(acc)@, offset as nat, count as nat) == copied(
                acc@,
                offset as nat,
                (count - i) as nat,
            ),
        decreases count - i,
    {
        let value = acc[acc.len() - 1 - offset];
        acc.push(value);
        i = i + 1;
    }
    true
}

/// Reads a body in format `V3` into a grid of the given dimensions.
pub fn decode_v3(width: usize, height: usize, cells: &str) -> (r: Result<Grid, CodeError>)
    requires
        width > 0,
        height > 0,
        area_fits(width as nat, height as nat),
    ensures
        reads_as(r, v3_board(width as nat, height as nat, cells@)),
{
    let chars = to_chars(cells);
    proof {
        assert(chars@.subrange(0, chars@.len() as int) == chars@);
    }
    v3_grid(width, height, chars.as_slice(), 0, chars.len())
}

/// Reads the part `lo..hi` of `s` as a body in format `V3` into a grid of
/// the given dimensions.
fn v3_grid(width: usize, height: usize, s: &[char], lo: usize, hi: usize) -> (r: Result<
    Grid,
    CodeError,
>)
    requires
        width > 0,
        height > 0,
        area_fits(width as nat, height as nat),
        lo <= hi <= s@.len(),
    ensures
        reads_as(
            r,
            v3_board(width as nat, height as nat, s@.subrange(lo as int, hi as int)),
        ),
{
    let body_chars = copy_part(s, lo, hi);
    let body = body_chars.as_slice();
    let n: usize = width * height;
    let mut values: Vec<usize> = Vec::new();
    let mut at: usize = 0;
    while at < body.len()
        invariant
            at <= body@.len(),
            n == width * height,
            values@.len() <= n,
            body@ == s@.subrange(lo as int, hi as int),
            v3_stream(body@, 0, Seq::empty(), n as nat) == v3_stream(
                body@,
                at as int,
                values@,
                n as nat,
            ),
        decreases body@.len() - at,
    {
        let ch = body[at];
        if ch == ')' {
            if body.len() - at <= 2 {
                return Err(CodeError::InvalidCellData);
            }
            let offset = decode_ch_74(body[at + 1]);
            let length = decode_ch_74(body[at + 2]);
            match (offset, length) {
                (Some(o), Some(l)) => {
                    if !refer(&mut values, n, o, l) {
                        return Err(CodeError::InvalidCellData);
                    }
                    at = at + 3;
                },
                _ => {
                    return Err(CodeError::InvalidCellData);
                },
            }
        } else if ch == '(' {
            let e = find_bracket(body, at + 1);
            if e >= body.len() {
                return Err(CodeError::InvalidCellData);
            }
            let offset = match decode_digits(body, at + 1, e, 74) {
                Some(o) => o,
                None => {
                    return Err(CodeError::InvalidCellData);
                },
            };
            let ghost true_offset = number(body@.subrange(at + 1, e as int), 74)->0;
            if body[e] == ')' {
                if body.len() - e <= 1 {
                    return Err(CodeError::InvalidCellData);
                }
                match decode_ch_74(body[e + 1]) {
                    Some(l) => {
                        proof {
                            lemma_referred_capped(values@, n as nat, true_offset, l as nat);
                        }
                        if !refer(&mut values, n, offset, l) {
                            return Err(CodeError::InvalidCellData);
                        }
                        at = e + 2;
                    },
                    None => {
                        return Err(CodeError::InvalidCellData);
                    },
                }
            } else {
                let e2 = find_char(body, e + 1, body.len(), ')');
                proof {
                    lemma_find_from(body@, ')', e + 1);
                }
                if e2 >= body.len() {
                    return Err(CodeError::InvalidCellData);
                }
                let length = match decode_digits(body, e + 1, e2, 74) {
                    Some(l) => l,
                    None => {
                        return Err(CodeError::InvalidCellData);
                    },
                };
                proof {
                    let true_length = number(body@.subrange(e + 1, e2 as int), 74)->0;
                    lemma_referred_capped(values@, n as nat, true_offset, true_length);
                }
                if !refer(&mut values, n, offset, length) {
                    return Err(CodeError::InvalidCellData);
                }
                at = e2 + 1;
            }
        } else {
            match decode_ch_74(ch) {
                Some(value) => {
                    if values.len() >= n {
                        return Err(CodeError::InvalidCellData);
                    }
                    values.push(value);
                    at = at + 1;
                },
                None => {
                    return Err(CodeError::InvalidCellData);
                },
            }
        }
    }
    let mut row: Vec<Option<Cell>> = Vec::new();
    let mut i: usize = 0;
    while i < n
        invariant
            i <= n,
            values@.len() <= n,
            row@.len() == i,
            forall|j: int| 0 <= j < i ==> #[trigger] row@[j] == v3_squares(values@, n as nat)[j],
        decreases n - i,
    {
        let square = if i < values.len() {
            let value = values[i];
            if value < 72 {
                Some(
                    Cell::new(v3_cell_type((value / 2) % 9), Direction::from_u8((value / 18) as u8)),
                )
            } else {
                None
            }
        } else {
            None
        };
        row.push(square);
        i = i + 1;
    }
    proof {
        assert(row@ =~= v3_squares(values@, n as nat));
    }
    Ok(Grid::from_squares(width, height, row))
}

/// A copy of the part `lo..hi` of `s`.
fn copy_part(s: &[char], lo: usize, hi: usize) -> (part: Vec<char>)
    requires
        lo <= hi <= s@.len(),
    ensures
        part@ == s@.subrange(lo as int, hi as int),
{
    let mut part: Vec<char> = Vec::new();
    let mut i: usize = lo;
    while i < hi
        invariant
            lo <= i <= hi <= s@.len(),
            part@ == s@.subrange(lo as int, i as int),
        decreases hi - i,
    {
        part.push(s[i]);
        proof {
            assert(s@.subrange(lo as int, i + 1) == s@.subrange(lo as int, i as int).push(
                s@[i as int],
            ));
        }
        i = i + 1;
    }
    part
}

/// A reference back is decided the same with its numbers capped: a number
/// beyond `usize::MAX` is beyond every count of squares.
proof fn lemma_referred_capped(acc: Seq<usize>, cap: nat, offset: nat, length: nat)
    requires
        acc.len() <= cap <= usize::MAX,
    ensures
        referred(acc, cap, capped(offset) as nat, capped(length) as nat) == referred(
            acc,
            cap,
            offset,
            length,
        ),
{
}

/// `find` from a position on sees the same as `find` in the part from that
/// position on.
proof fn lemma_find_from(s: Seq<char>, sep: char, from: int)
    requires
        0 <= from <= s.len(),
    ensures
        find(s, sep, from) == from + find(s.subrange(from, s.len() as int), sep, 0),
{
    let part = s.subrange(from, s.len() as int);
    crate::text::lemma_find(part, sep, 0);
    let k = find(part, sep, 0);
    assert forall|i: int| from <= i < from + k implies s[i] != sep by {
        assert(s[i] == part[i - from]);
    }
    if k < part.len() {
        assert(s[from + k] == part[k]);
    }
    lemma_find_is(s, sep, from, from + k);
}

/// The board that a code stands for, or why it cannot be read. The white
/// space around the code is left out, and the rest is split at the
/// semicolons. The first field is the tag, the second and third are the
/// width and the height, with 62 digits, or with 74 in format `V3`. In format
/// `Q1` every further field is a run of squares; in the others the fourth
/// field is the body.
pub open spec fn import_board(text: Seq<char>) -> Result<Board, CodeError> {
    let fields = split(trimmed(text), ';');
    let tag = fields[0];
    let q1 = tag == seq!['Q', '1'];
    let q2 = tag == seq!['Q', '2'];
    let v3 = tag == seq!['V', '3'];
    let base: int = if v3 {
        74
    } else {
        62
    };
    if tag.len() == 0 {
        Err(CodeError::MissingType)
    } else if !q1 && !q2 && !v3 {
        Err(CodeError::UnknownCodeType)
    } else if fields.len() < 2 || dimension(fields[1], base) is None {
        Err(CodeError::MissingWidth)
    } else if fields.len() < 3 || dimension(fields[2], base) is None || !area_fits(
        dimension(fields[1], base)->0,
        dimension(fields[2], base)->0,
    ) {
        Err(CodeError::MissingHeight)
    } else if q1 {
        q1_board(dimension(fields[1], base)->0, dimension(fields[2], base)->0, fields.skip(3))
    } else if fields.len() < 4 {
        Err(CodeError::MissingCellData)
    } else if q2 {
        q2_board(dimension(fields[1], base)->0, dimension(fields[2], base)->0, fields[3])
    } else {
        v3_board(dimension(fields[1], base)->0, dimension(fields[2], base)->0, fields[3])
    }
}

/// Whether the part `lo..hi` of `s` is the two characters `a` and `b`.
fn is_tag(s: &[char], lo: usize, hi: usize, a: char, b: char) -> (r: bool)
    requires
        lo <= hi <= s@.len(),
    ensures
        r == (s@.subrange(lo as int, hi as int) == seq![a, b]),
{
    let r = hi - lo == 2 && s[lo] == a && s[lo + 1] == b;
    proof {
        let part = s@.subrange(lo as int, hi as int);
        if r {
            assert(part =~= seq![a, b]);
        } else if part.len() == 2 {
            assert(part[0] == s@[lo as int]);
            assert(part[1] == s@[lo + 1]);
            assert(seq![a, b][0] == a);
            assert(seq![a, b][1] == b);
        } else {
            assert(seq![a, b].len() == 2);
        }
    }
    r
}

/// Reads a code into a grid, or says why it cannot be read.
pub fn import_grid(input: &str) -> (r: Result<Grid, CodeError>)
    ensures
        reads_as(r, import_board(input@)),
{
    let chars = to_chars(input);
    let s = chars.as_slice();
    let (lo, hi) = trim(s);
    let fields = split_fields(s, lo, hi, ';');
    let ghost texts = split(trimmed(input@), ';');
    proof {
        assert(field_texts(s@, fields@) =~= texts);
    }
    let (tag_lo, tag_hi) = fields[0];
    if tag_lo == tag_hi {
        return Err(CodeError::MissingType);
    }
    let q1 = is_tag(s, tag_lo, tag_hi, 'Q', '1');
    let q2 = is_tag(s, tag_lo, tag_hi, 'Q', '2');
    let v3 = is_tag(s, tag_lo, tag_hi, 'V', '3');
    if !q1 && !q2 && !v3 {
        return Err(CodeError::UnknownCodeType);
    }
    let base: usize = if v3 {
        74
    } else {
        62
    };
    if fields.len() < 2 {
        return Err(CodeError::MissingWidth);
    }
    let width = match decode_digits(s, fields[1].0, fields[1].1, base) {
        Some(w) => w,
        None => {
            return Err(CodeError::MissingWidth);
        },
    };
    if width == 0 {
        return Err(CodeError::MissingWidth);
    }
    if fields.len() < 3 {
        return Err(CodeError::MissingHeight);
    }
    let height = match decode_digits(s, fields[2].0, fields[2].1, base) {
        Some(h) => h,
        None => {
            return Err(CodeError::MissingHeight);
        },
    };
    if height == 0 {
        return Err(CodeError::MissingHeight);
    }
    let ghost w = dimension(texts[1], base as int)->0;
    let ghost h = dimension(texts[2], base as int)->0;
    let fits = match width.checked_mul(height) {
        Some(area) => area <= isize::MAX as usize / 3,
        None => false,
    };
    proof {
        assert(width == capped(w));
        assert(height == capped(h));
        if w > usize::MAX || h > usize::MAX {
            assert(w * h > usize::MAX) by (nonlinear_arith)
                requires
                    w > usize::MAX || h > usize::MAX,
                    w >= 1,
                    h >= 1,
            ;
            assert(width * height >= usize::MAX) by (nonlinear_arith)
                requires
                    width == usize::MAX || height == usize::MAX,
                    width >= 1,
                    height >= 1,
            ;
        } else {
            assert(width * height == w * h);
        }
        assert(fits == area_fits(w, h));
    }
    if !fits {
        return Err(CodeError::MissingHeight);
    }
    if q1 {
        return q1_grid(width, height, s, fields.as_slice(), 3);
    }
    if fields.len() < 4 {
        return Err(CodeError::MissingCellData);
    }
    if q2 {
        let body = to_text(copy_part(s, fields[3].0, fields[3].1).as_slice());
        decode_q2(width, height, body.as_str())
    } else {
        v3_grid(width, height, s, fields[3].0, fields[3].1)
    }
}

/// Reads a code into a grid. Where it cannot be read, the error is one of
/// the texts "missing type specifier", "missing width", "missing height",
/// "missing cell data", "unknown code type", "invalid base64" and "invalid
/// cell data".
pub fn import(input: &str) -> (r: Result<Grid, &'static str>)
    ensures
        match r {
            Ok(g) => g.wf() && g.tick_count() == 0 && import_board(input@) == Ok::<
                Board,
                CodeError,
            >(g@),
            Err(text) => import_board(input@) is Err && text@ == import_board(
                input@,
            )->Err_0.spec_message(),
        },
{
    match import_grid(input) {
        Ok(g) => Ok(g),
        Err(e) => Err(e.message()),
    }
}

/// The bytes of a run in format `Q2`: the code as a byte number, and for
/// a run of more than one square the separator `0xff` and the count as a byte
/// number.
pub open spec fn q2_group(group: (nat, nat)) -> Seq<u8> {
    if group.1 > 1 {
        s64_bytes(group.0) + seq![0xffu8] + s64_bytes(group.1)
    } else {
        s64_bytes(group.0)
    }
}

/// The bytes of a list of runs in format `Q2`.
pub open spec fn q2_bytes(groups: Seq<(nat, nat)>) -> Seq<u8>
    decreases groups.len(),
{
    if groups.len() == 0 {
        Seq::empty()
    } else {
        q2_bytes(groups.drop_last()) + q2_group(groups.last())
    }
}

/// The bytes of a board in format `Q2`, before they are packed.
pub open spec fn q2_raw(b: Board) -> Seq<u8> {
    q2_bytes(runs(b.squares()))
}

/// The level at which format `Q2` packs its bytes.
pub const Q2_LEVEL: i32 = 12;

/// The fields of a code in format `Q2`: the tag, the width, the height,
/// and the packed bytes as base64 text.
pub open spec fn q2_fields(width: nat, height: nat, packed: Seq<u8>) -> Seq<Seq<char>> {
    seq![seq!['Q', '2'], numeral62(width), numeral62(height), base64_text(packed)]
}

/// The code of a board in format `Q2`.
pub open spec fn q2_text(b: Board) -> Seq<char> {
    join(
        q2_fields(b.width as nat, b.height as nat, zlib_deflated(q2_raw(b), Q2_LEVEL as int)),
        ';',
    )
}

/// Whether bytes of this length can be written as base64 text: the length
/// of the text must fit a `usize`.
pub open spec fn base64_fits(len: nat) -> bool {
    (len / 3 + 1) * 4 <= usize::MAX
}

/// Whether the board can be written in format `Q2`: its packed bytes can be
/// written as base64 text.
pub open spec fn q2_encodable(b: Board) -> bool {
    base64_fits(zlib_deflated(q2_raw(b), Q2_LEVEL as int).len())
}

/// The bytes of the grid in format `Q2`, before they are packed.
pub fn q2_body(grid: &Grid) -> (raw: Vec<u8>)
    requires
        grid.wf(),
    ensures
        raw@ == q2_raw(grid@),
{
    let squares = grid.to_vec();
    let groups = group_runs(squares.as_slice());
    let ghost all = runs(grid@.squares());
    let mut raw: Vec<u8> = Vec::new();
    let mut k: usize = 0;
    proof {
        assert(all.take(0) =~= Seq::<(nat, nat)>::empty());
    }
    while k < groups.len()
        invariant
            k <= groups@.len(),
            runs_view(groups@) == all,
            raw@ == q2_bytes(all.take(k as int)),
        decreases groups@.len() - k,
    {
        let ghost before = raw@;
        let (code, count) = groups[k];
        proof {
            assert(all[k as int] == (code as nat, count as nat));
            assert(all.take(k + 1).drop_last() == all.take(k as int));
            assert(all.take(k + 1).last() == all[k as int]);
        }
        let mut value = encode_num_s64(code);
        raw.append(&mut value);
        if count > 1 {
            raw.push(0xff);
            let mut length = encode_num_s64(count);
            raw.append(&mut length);
            proof {
                assert(raw@ == before + (s64_bytes(code as nat) + seq![0xffu8] + s64_bytes(
                    count as nat,
                )));
            }
        }
        k = k + 1;
    }
    proof {
        assert(all.take(all.len() as int) == all);
    }
    raw
}

/// Frames the packed bytes of a body in format `Q2` as a code: the header
/// with the dimensions, and the bytes as base64 text.
pub fn q2_frame(width: usize, height: usize, packed: &[u8]) -> (result: String)
    requires
        base64_fits(packed@.len()),
    ensures
        result@ == join(q2_fields(width as nat, height as nat, packed@), ';'),
        base64_bytes(base64_text(packed@)) == Some(packed@),
        forall|i: int|
            0 <= i < base64_text(packed@).len() ==> is_base64_char(
                #[trigger] base64_text(packed@)[i],
            ),
{
    let ghost parts = q2_fields(width as nat, height as nat, packed@);
    let mut out: Vec<char> = Vec::new();
    out.push('Q');
    out.push('2');
    proof {
        assert(out@ == seq!['Q', '2']);
        assert(parts.take(1) == seq![seq!['Q', '2']]);
        assert(join(parts.take(1), ';') == seq!['Q', '2']);
    }
    out.push(';');
    push_num_62(&mut out, width);
    proof {
        assert(parts.take(2).drop_last() == parts.take(1));
        assert(out@ == join(parts.take(2), ';'));
    }
    out.push(';');
    push_num_62(&mut out, height);
    proof {
        assert(parts.take(3).drop_last() == parts.take(2));
        assert(out@ == join(parts.take(3), ';'));
    }
    out.push(';');
    let body = base64_encode(packed);
    let mut body_chars = to_chars(body.as_str());
    out.append(&mut body_chars);
    proof {
        assert(parts.take(4).drop_last() == parts.take(3));
        assert(parts.take(4) == parts);
        assert(out@ == join(parts, ';'));
    }
    to_text(out.as_slice())
}

/// Writes the grid as a code in format `Q2`. Reading that code gives the
/// grid back, each square as it comes back from its code, unless the bytes
/// are more than three for each square; they are not, where all cells are of
/// types of the catalog.
pub fn export_q2(grid: &Grid) -> (result: String)
    requires
        grid.wf(),
        q2_encodable(grid@),
    ensures
        result@ == q2_text(grid@),
        plain_row(grid@.squares()) ==> import_board(result@) == Ok::<Board, CodeError>(
            fresh_board(grid@),
        ),
{
    let raw = q2_body(grid);
    let packed = zlib_compress(raw.as_slice(), Q2_LEVEL);
    let result = q2_frame(grid.width(), grid.height(), packed.as_slice());
    proof {
        grid.lemma_view();
        if plain_row(grid@.squares()) {
            lemma_q2_round_trip(grid@, packed@, base64_text(packed@));
        }
    }
    result
}

/// Writes the grid as a code in format `Q2`, if it can be written so.
pub fn try_export_q2(grid: &Grid) -> (result: Option<String>)
    requires
        grid.wf(),
    ensures
        match result {
            Some(text) => q2_encodable(grid@) && text@ == q2_text(grid@),
            None => !q2_encodable(grid@),
        },
{
    let raw = q2_body(grid);
    let packed = zlib_compress(raw.as_slice(), Q2_LEVEL);
    if packed.len() / 3 < usize::MAX / 4 {
        Some(export_q2(grid))
    } else {
        None
    }
}

} // verus!

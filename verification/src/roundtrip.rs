//! What is written can be read: the laws that tie the two directions of the
//! codec together.

use vstd::prelude::*;
use crate::cells::Board;
use crate::cells::Cell;
use crate::codes::CodeError;
use crate::codes::area_fits;
use crate::codes::dimension;
use crate::codes::import_board;
use crate::codes::q1_cell;
use crate::codes::q1_fields;
use crate::codes::q1_group;
use crate::codes::q1_groups;
use crate::codes::q1_run;
use crate::codes::q1_stream;
use crate::codes::q1_text;
use crate::codes::q1_token;
use crate::codes::q2_bytes;
use crate::codes::q2_cells;
use crate::codes::q2_group;
use crate::codes::q2_packed;
use crate::codes::q2_raw;
use crate::codes::q2_stream;
use crate::numerals::is_digit;
use crate::numerals::lemma_digit_round_trip;
use crate::numerals::lemma_number_of_numeral62;
use crate::numerals::lemma_numeral62_digits;
use crate::numerals::lemma_read_s64;
use crate::numerals::s64_bytes;
use crate::outside::base64_bytes;
use crate::outside::is_base64_char;
use crate::outside::zlib_inflated;
use crate::cell_data::in_catalog;
use crate::runs::code_of;
use crate::numerals::numeral62;
use crate::runs::cell_of;
use crate::runs::expand;
use crate::runs::fresh_board;
use crate::runs::fresh_row;
use crate::runs::laid_out;
use crate::runs::lemma_expand_runs;
use crate::runs::lemma_fresh_board_same;
use crate::runs::plain_row;
use crate::runs::repeated;
use crate::runs::runs;
use crate::text::has_char;
use crate::text::is_space;
use crate::text::join;
use crate::text::lemma_find_is;
use crate::text::lemma_split_join;
use crate::text::lemma_trimmed_plain;
use crate::text::split;
use crate::text::trimmed;

verus! {

/// Whether a text is made of the 62 digits and `+` only.
pub open spec fn is_field_text(s: Seq<char>) -> bool {
    forall|i: int| 0 <= i < s.len() ==> is_digit(#[trigger] s[i], 62) || s[i] == '+'
}

/// The fields of a body in format `Q1` are made of the 62 digits and `+`.
pub proof fn lemma_q1_group_text(group: (nat, nat))
    ensures
        is_field_text(q1_group(group)),
        is_field_text(q1_token(group.0)),
        !has_char(q1_token(group.0), '+'),
{
    let token = q1_token(group.0);
    if group.0 > 0 {
        lemma_numeral62_digits(((group.0 - 1) / 4) as nat);
        lemma_digit_round_trip((group.0 - 1) % 4);
        assert forall|i: int| 0 <= i < token.len() implies is_digit(#[trigger] token[i], 62) by {
            if i < token.len() - 1 {
                assert(token[i] == numeral62(((group.0 - 1) / 4) as nat)[i]);
            }
        }
    }
    lemma_numeral62_digits(group.1);
    let text = q1_group(group);
    assert forall|i: int| 0 <= i < text.len() implies is_digit(#[trigger] text[i], 62) || text[i]
        == '+' by {
        if group.1 > 1 {
            if i < token.len() {
                assert(text[i] == token[i]);
            } else if i > token.len() {
                assert(text[i] == numeral62(group.1)[i - token.len() - 1]);
            }
        }
    }
}

/// A token of format `Q1` is read back as the square of its code.
pub proof fn lemma_q1_cell(code: nat)
    ensures
        q1_cell(q1_token(code)) == cell_of(code),
{
    if code > 0 {
        let id = ((code - 1) / 4) as nat;
        let token = q1_token(code);
        lemma_number_of_numeral62(id);
        lemma_digit_round_trip((code - 1) % 4);
        assert(token.drop_last() == numeral62(id));
    }
}

/// A field of format `Q1` is read back as the run it was written for.
pub proof fn lemma_q1_run(group: (nat, nat))
    requires
        group.1 >= 1,
    ensures
        q1_run(q1_group(group)) == Some((cell_of(group.0), group.1)),
{
    let token = q1_token(group.0);
    let field = q1_group(group);
    lemma_q1_group_text(group);
    lemma_q1_cell(group.0);
    if group.1 > 1 {
        assert forall|i: int| 0 <= i < token.len() implies field[i] != '+' by {
            assert(field[i] == token[i]);
            assert(is_digit(token[i], 62));
        }
        assert(field[token.len() as int] == '+');
        lemma_find_is(field, '+', 0, token.len() as int);
        assert(field.skip(token.len() as int + 1) == numeral62(group.1));
        assert(field.take(token.len() as int) == token);
        lemma_number_of_numeral62(group.1);
    } else {
        assert forall|i: int| 0 <= i < token.len() implies field[i] != '+' by {
            assert(is_digit(token[i], 62));
        }
        lemma_find_is(field, '+', 0, field.len() as int);
    }
}

/// The fields of a body in format `Q1` are read back as the squares that
/// their runs stand for.
pub proof fn lemma_q1_stream(groups: Seq<(nat, nat)>)
    requires
        forall|k: int| 0 <= k < groups.len() ==> (#[trigger] groups[k]).1 >= 1,
    ensures
        q1_stream(q1_groups(groups)) == Some(expand(groups)),
    decreases groups.len(),
{
    if groups.len() > 0 {
        let front = groups.drop_last();
        assert forall|k: int| 0 <= k < front.len() implies (#[trigger] front[k]).1 >= 1 by {
            assert(front[k] == groups[k]);
        }
        lemma_q1_stream(front);
        lemma_q1_run(groups.last());
        assert(q1_groups(groups).drop_last() == q1_groups(front));
        assert(q1_groups(groups).last() == q1_group(groups.last()));
    }
}

/// A text made of the 62 digits and `+` holds no semicolon, and neither
/// begins nor ends with white space.
pub proof fn lemma_field_text(s: Seq<char>)
    requires
        is_field_text(s),
    ensures
        !has_char(s, ';'),
        s.len() > 0 ==> !is_space(s[0]) && !is_space(s.last()),
{
    if has_char(s, ';') {
        let i = choose|i: int| 0 <= i < s.len() && s[i] == ';';
        assert(is_digit(s[i], 62) || s[i] == '+');
    }
    if s.len() > 0 {
        assert(is_digit(s[0], 62) || s[0] == '+');
        assert(is_digit(s.last(), 62) || s.last() == '+');
    }
}

/// What was joined begins as its first part begins and ends as its last
/// part ends; where that part is empty and not the only one, it ends with the
/// separator.
pub proof fn lemma_join_edges(parts: Seq<Seq<char>>, sep: char)
    requires
        parts.len() >= 1,
        parts[0].len() > 0,
    ensures
        join(parts, sep).len() > 0,
        join(parts, sep)[0] == parts[0][0],
        join(parts, sep).last() == if parts.last().len() > 0 {
            parts.last().last()
        } else {
            sep
        },
    decreases parts.len(),
{
    if parts.len() > 1 {
        let front = parts.drop_last();
        assert(front[0] == parts[0]);
        lemma_join_edges(front, sep);
        let whole = join(parts, sep);
        assert(whole == join(front, sep) + seq![sep] + parts.last());
        assert(whole[0] == join(front, sep)[0]);
        if parts.last().len() > 0 {
            assert(whole.last() == parts.last()[parts.last().len() - 1]);
        } else {
            assert(whole.last() == sep);
        }
    }
}

/// A 62-digit numeral of a dimension is read back as that dimension.
pub proof fn lemma_dimension(n: nat)
    requires
        n > 0,
    ensures
        dimension(numeral62(n), 62) == Some(n),
        is_field_text(numeral62(n)),
{
    lemma_number_of_numeral62(n);
    lemma_numeral62_digits(n);
}

/// A code whose fields are a tag, two dimensions with 62 digits and more
/// fields without semicolon, the last of which does not end with white space,
/// is split into these fields again.
pub proof fn lemma_header(tag: Seq<char>, width: nat, height: nat, rest: Seq<Seq<char>>)
    requires
        tag == seq!['Q', '1'] || tag == seq!['Q', '2'],
        width > 0,
        height > 0,
        rest.len() >= 1,
        forall|k: int| 0 <= k < rest.len() ==> !has_char(#[trigger] rest[k], ';'),
        rest.last().len() > 0 ==> !is_space(rest.last().last()),
    ensures
        split(
            trimmed(join(seq![tag, numeral62(width), numeral62(height)] + rest, ';')),
            ';',
        ) == seq![tag, numeral62(width), numeral62(height)] + rest,
{
    let fields = seq![tag, numeral62(width), numeral62(height)] + rest;
    let text = join(fields, ';');
    lemma_dimension(width);
    lemma_dimension(height);
    lemma_field_text(numeral62(width));
    lemma_field_text(numeral62(height));
    assert(tag[0] == 'Q');
    assert(!has_char(tag, ';')) by {
        if has_char(tag, ';') {
            let i = choose|i: int| 0 <= i < tag.len() && tag[i] == ';';
            assert(i == 0 || i == 1);
        }
    }
    assert forall|k: int| 0 <= k < fields.len() implies !has_char(#[trigger] fields[k], ';') by {
        if k >= 3 {
            assert(fields[k] == rest[k - 3]);
        }
    }
    assert(fields.last() == rest.last());
    lemma_join_edges(fields, ';');
    lemma_trimmed_plain(text);
    lemma_split_join(fields, ';');
}

/// Reading the code that format `Q1` writes for a board gives the board
/// back, each square as it comes back from its code.
pub proof fn lemma_q1_import_export(b: Board)
    requires
        b.wf(),
        area_fits(b.width as nat, b.height as nat),
    ensures
        import_board(q1_text(b)) == Ok::<Board, CodeError>(fresh_board(b)),
{
    let w = b.width as nat;
    let h = b.height as nat;
    let sq = b.squares();
    let groups = runs(sq);
    let rest = q1_groups(groups);
    let tag = seq!['Q', '1'];
    let fields = q1_fields(b);
    assert(w * h >= 1) by (nonlinear_arith)
        requires
            w >= 1,
            h >= 1,
    ;
    lemma_expand_runs(sq);
    assert forall|k: int| 0 <= k < rest.len() implies !has_char(#[trigger] rest[k], ';') by {
        lemma_q1_group_text(groups[k]);
        lemma_field_text(rest[k]);
    }
    lemma_q1_group_text(groups.last());
    lemma_field_text(rest.last());
    lemma_header(tag, w, h, rest);
    lemma_dimension(w);
    lemma_dimension(h);
    assert(fields.skip(3) == rest);
    assert(fields[0] == tag);
    assert(fields[1] == numeral62(w));
    assert(fields[2] == numeral62(h));
    assert(tag.len() == 2);
    assert(tag != seq!['V', '3']) by {
        assert(tag[0] == 'Q');
        assert(seq!['V', '3'][0] == 'V');
    }
    lemma_q1_stream(groups);
    assert(laid_out(fresh_row(sq), w * h) == fresh_row(sq));
}

/// Reading the code that format `Q1` writes for a board, whose cells are
/// all of types of the catalog and hold nothing, gives a board that is the
/// same, up to the `updated` flags.
pub proof fn lemma_q1_round_trip(b: Board)
    requires
        b.wf(),
        area_fits(b.width as nat, b.height as nat),
        plain_row(b.squares()),
    ensures
        import_board(q1_text(b)) is Ok,
        import_board(q1_text(b))->Ok_0.same(b),
        b.same(import_board(q1_text(b))->Ok_0),
{
    lemma_q1_import_export(b);
    lemma_fresh_board_same(b);
}

/// The bytes of a list of runs begin with the bytes of its first run.
pub proof fn lemma_q2_bytes_first(groups: Seq<(nat, nat)>)
    requires
        groups.len() > 0,
    ensures
        q2_bytes(groups) == q2_group(groups[0]) + q2_bytes(groups.drop_first()),
    decreases groups.len(),
{
    if groups.len() == 1 {
        assert(groups.drop_last() =~= Seq::<(nat, nat)>::empty());
        assert(groups.drop_first() =~= Seq::<(nat, nat)>::empty());
        assert(q2_bytes(groups.drop_last()) =~= Seq::<u8>::empty());
        assert(q2_bytes(groups.drop_first()) =~= Seq::<u8>::empty());
        assert(groups.last() == groups[0]);
        assert(q2_bytes(groups) =~= q2_group(groups[0]));
        assert(q2_group(groups[0]) + q2_bytes(groups.drop_first()) =~= q2_group(groups[0]));
    } else {
        let front = groups.drop_last();
        lemma_q2_bytes_first(front);
        assert(front[0] == groups[0]);
        assert(front.drop_first() == groups.drop_first().drop_last());
        assert(groups.drop_first().last() == groups.last());
        assert(q2_bytes(groups) =~= q2_group(groups[0]) + q2_bytes(groups.drop_first()));
    }
}

/// The squares of a list of runs begin with the squares of its first run.
pub proof fn lemma_expand_first(groups: Seq<(nat, nat)>)
    requires
        groups.len() > 0,
    ensures
        expand(groups) == repeated(cell_of(groups[0].0), groups[0].1) + expand(
            groups.drop_first(),
        ),
    decreases groups.len(),
{
    let first = repeated(cell_of(groups[0].0), groups[0].1);
    if groups.len() == 1 {
        assert(groups.drop_last() =~= Seq::<(nat, nat)>::empty());
        assert(groups.drop_first() =~= Seq::<(nat, nat)>::empty());
        assert(expand(groups.drop_last()) =~= Seq::<Option<Cell>>::empty());
        assert(expand(groups.drop_first()) =~= Seq::<Option<Cell>>::empty());
        assert(groups.last() == groups[0]);
        assert(expand(groups) =~= first);
        assert(first + expand(groups.drop_first()) =~= first);
    } else {
        let front = groups.drop_last();
        lemma_expand_first(front);
        assert(front[0] == groups[0]);
        assert(front.drop_first() == groups.drop_first().drop_last());
        assert(groups.drop_first().last() == groups.last());
        assert(expand(groups) =~= first + expand(groups.drop_first()));
    }
}

/// The bytes of a list of runs are read back as the squares that the runs
/// stand for, wherever the bytes begin.
pub proof fn lemma_q2_read(front: Seq<u8>, groups: Seq<(nat, nat)>, acc: Seq<Option<Cell>>)
    requires
        forall|k: int| 0 <= k < groups.len() ==> (#[trigger] groups[k]).1 >= 1,
    ensures
        q2_stream(front + q2_bytes(groups), front.len() as int, acc) == Some(acc + expand(groups)),
    decreases groups.len(),
{
    let s = front + q2_bytes(groups);
    if groups.len() == 0 {
        assert(acc + expand(groups) =~= acc);
    } else {
        let g = groups[0];
        let rest = groups.drop_first();
        let tail = q2_bytes(rest);
        let cells = repeated(cell_of(g.0), g.1);
        lemma_q2_bytes_first(groups);
        lemma_expand_first(groups);
        assert forall|k: int| 0 <= k < rest.len() implies (#[trigger] rest[k]).1 >= 1 by {
            assert(rest[k] == groups[k + 1]);
        }
        let at = front.len() as int;
        let p = at + s64_bytes(g.0).len();
        if g.1 > 1 {
            let after = seq![0xffu8] + s64_bytes(g.1) + tail;
            assert(s =~= front + s64_bytes(g.0) + after);
            lemma_read_s64(front, g.0, after);
            assert(s[p] == 0xff);
            let front2 = front + s64_bytes(g.0) + seq![0xffu8];
            assert(s =~= front2 + s64_bytes(g.1) + tail);
            lemma_read_s64(front2, g.1, tail);
            let front3 = front + q2_group(g);
            assert(front3 =~= front2 + s64_bytes(g.1));
            assert(s =~= front3 + tail);
            lemma_q2_read(front3, rest, acc + cells);
            assert(acc + cells + expand(rest) =~= acc + expand(groups));
        } else {
            assert(s =~= front + s64_bytes(g.0) + tail);
            lemma_read_s64(front, g.0, tail);
            if p < s.len() {
                assert(rest.len() > 0);
                lemma_q2_bytes_first(rest);
                lemma_read_s64(Seq::empty(), rest[0].0, Seq::empty());
                assert(s[p] == tail[0]);
                assert(tail[0] == s64_bytes(rest[0].0)[0]);
            }
            let front3 = front + q2_group(g);
            assert(s =~= front3 + tail);
            lemma_q2_read(front3, rest, acc + cells);
            assert(acc + cells + expand(rest) =~= acc + expand(groups));
        }
    }
}

/// The codes of the runs of a row whose cells are all of types of the
/// catalog are below 251: each is written as one byte.
pub proof fn lemma_runs_codes(squares: Seq<Option<Cell>>)
    requires
        plain_row(squares),
    ensures
        forall|k: int| 0 <= k < runs(squares).len() ==> (#[trigger] runs(squares)[k]).0 < 251,
    decreases squares.len(),
{
    if squares.len() > 0 {
        let front = squares.drop_last();
        assert forall|i: int| 0 <= i < front.len() implies match #[trigger] front[i] {
            Some(c) => in_catalog(c.id) && c.contained_cell is None,
            None => true,
        } by {
            assert(front[i] == squares[i]);
        }
        lemma_runs_codes(front);
        let before = runs(front);
        let code = code_of(squares.last());
        let sq = squares[squares.len() - 1];
        assert(code < 251);
        let now = runs(squares);
        assert forall|k: int| 0 <= k < now.len() implies (#[trigger] now[k]).0 < 251 by {
            if k < now.len() - 1 {
                assert(now[k] == before[k]);
            }
        }
    }
}

/// Runs with codes below 251 take no more than three bytes for each of
/// their squares.
pub proof fn lemma_q2_length(groups: Seq<(nat, nat)>)
    requires
        forall|k: int|
            0 <= k < groups.len() ==> (#[trigger] groups[k]).0 < 251 && groups[k].1 >= 1,
    ensures
        q2_bytes(groups).len() <= 3 * expand(groups).len(),
    decreases groups.len(),
{
    if groups.len() > 0 {
        let front = groups.drop_last();
        assert forall|k: int| 0 <= k < front.len() implies (#[trigger] front[k]).0 < 251
            && front[k].1 >= 1 by {
            assert(front[k] == groups[k]);
        }
        lemma_q2_length(front);
        let g = groups.last();
        lemma_read_s64(Seq::empty(), g.0, Seq::empty());
        lemma_read_s64(Seq::empty(), g.1, Seq::empty());
        assert(g.0 / 251 == 0);
        assert(q2_group(g).len() <= 3 * g.1);
    }
}

/// Reading the code that format `Q2` writes for a board, whose cells are
/// all of types of the catalog, gives the board back, each square as it comes
/// back from its code. `packed` stands for the packed bytes and `body` for
/// their base64 text; what is required of them is what packing and base64
/// promise.
pub proof fn lemma_q2_round_trip(b: Board, packed: Seq<u8>, body: Seq<char>)
    requires
        b.wf(),
        area_fits(b.width as nat, b.height as nat),
        plain_row(b.squares()),
        zlib_inflated(packed) == Some(q2_raw(b)),
        base64_bytes(body) == Some(packed),
        forall|i: int| 0 <= i < body.len() ==> is_base64_char(#[trigger] body[i]),
    ensures
        import_board(
            join(
                seq![seq!['Q', '2'], numeral62(b.width as nat), numeral62(b.height as nat), body],
                ';',
            ),
        ) == Ok::<Board, CodeError>(fresh_board(b)),
{
    let w = b.width as nat;
    let h = b.height as nat;
    let sq = b.squares();
    let groups = runs(sq);
    let tag = seq!['Q', '2'];
    let rest = seq![body];
    let fields = seq![tag, numeral62(w), numeral62(h)] + rest;
    assert(fields =~= seq![tag, numeral62(w), numeral62(h), body]);
    assert(w * h >= 1) by (nonlinear_arith)
        requires
            w >= 1,
            h >= 1,
    ;
    assert(!has_char(body, ';')) by {
        if has_char(body, ';') {
            let i = choose|i: int| 0 <= i < body.len() && body[i] == ';';
            assert(is_base64_char(body[i]));
        }
    }
    if body.len() > 0 {
        assert(is_base64_char(body.last()));
    }
    lemma_header(tag, w, h, rest);
    lemma_dimension(w);
    lemma_dimension(h);
    assert(tag.len() == 2);
    assert(tag != seq!['Q', '1']) by {
        assert(tag[1] == '2');
        assert(seq!['Q', '1'][1] == '1');
    }
    assert(tag != seq!['V', '3']) by {
        assert(tag[0] == 'Q');
        assert(seq!['V', '3'][0] == 'V');
    }
    lemma_expand_runs(sq);
    lemma_runs_codes(sq);
    lemma_q2_length(groups);
    lemma_q2_read(Seq::empty(), groups, Seq::empty());
    assert(Seq::<u8>::empty() + q2_bytes(groups) =~= q2_bytes(groups));
    assert(Seq::<Option<Cell>>::empty() + expand(groups) =~= expand(groups));
    assert(laid_out(fresh_row(sq), w * h) == fresh_row(sq));
    assert(q2_cells(w, h, q2_raw(b)) == Ok::<Board, CodeError>(fresh_board(b)));
    assert(q2_packed(w, h, packed) == Ok::<Board, CodeError>(fresh_board(b)));
}

} // verus!

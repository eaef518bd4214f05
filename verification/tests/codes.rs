use base64::Engine;
use quell_machine::cell_data::{ENEMY, GENERATOR, MAILBOX, MOVER, PUSH, TRASH, WALL};
use quell_machine::cells::{Cell, Grid};
use quell_machine::codes::{
    decode_q1, decode_q2, decode_q2_cells, decode_q2_packed, decode_v3, export_q1, export_q2,
    import, import_grid, q2_body, q2_frame, try_export_q2, CodeError,
};
use quell_machine::direction::Direction;

fn mover_grid() -> Grid {
    let mut grid = Grid::new(2, 1);
    grid.set(0, 0, Cell::new(MOVER, Direction::Right));
    grid
}

#[test]
fn q1_round_trip() {
    let grid = mover_grid();
    assert_eq!(export_q1(&grid), "Q1;2;1;10;");
    let back = import("Q1;2;1;10;").unwrap();
    assert!(back == grid);
    assert_eq!(back.get(0, 0), Some(Cell::new(MOVER, Direction::Right)));
    assert_eq!(back.get(1, 0), None);
    assert_eq!(back.width(), 2);
    assert_eq!(back.height(), 1);
}

#[test]
fn q1_of_an_empty_square_has_an_empty_body() {
    assert_eq!(export_q1(&Grid::new(1, 1)), "Q1;1;1;");
    assert!(import("Q1;1;1;").unwrap() == Grid::new(1, 1));
}

#[test]
fn q1_writes_runs_with_their_count() {
    assert_eq!(export_q1(&Grid::new(2, 2)), "Q1;2;2;+4");
    let mut grid = Grid::new(70, 1);
    for x in 0..70 {
        grid.set(x, 0, Cell::new(WALL, Direction::Up));
    }
    assert_eq!(export_q1(&grid), "Q1;18;1;3+18");
    assert!(import("Q1;18;1;3+18").unwrap() == grid);
}

#[test]
fn q1_writes_types_with_62_digits() {
    let mut grid = Grid::new(3, 1);
    grid.set(0, 0, Cell::new(MAILBOX, Direction::Left));
    grid.set(1, 0, Cell::new(WALL, Direction::Down));
    grid.set(2, 0, Cell::new(WALL, Direction::Down));
    assert_eq!(export_q1(&grid), "Q1;3;1;r2;1+2");
    assert!(import("Q1;3;1;r2;1+2").unwrap() == grid);
}

#[test]
fn q1_round_trip_of_a_mixed_grid() {
    let mut grid = Grid::new(5, 4);
    grid.set(0, 0, Cell::new(MOVER, Direction::Up));
    grid.set(1, 0, Cell::new(MOVER, Direction::Up));
    grid.set(4, 1, Cell::new(GENERATOR, Direction::Left));
    grid.set(2, 3, Cell::new(TRASH, Direction::Right));
    grid.set(3, 3, Cell::new(ENEMY, Direction::Down));
    grid.set(4, 3, Cell::new(ENEMY, Direction::Down));
    let text = export_q1(&grid);
    assert!(import(&text).unwrap() == grid);
    let packed = try_export_q2(&grid).unwrap();
    assert!(import(&packed).unwrap() == grid);
}

#[test]
fn import_trims_white_space() {
    assert!(import("  Q1;2;1;10;\n").unwrap() == mover_grid());
}

#[test]
fn import_ignores_squares_beyond_the_grid() {
    assert!(import("Q1;2;1;10;;80;80").unwrap() == mover_grid());
    assert!(import("Q1;2;1;10;+zzzzzzzzzzzzzzzzzzzz").unwrap() == mover_grid());
}

#[test]
fn import_leaves_out_cells_it_does_not_know() {
    // Type 33 is not in the catalog, direction 4 is none, `?` is no digit.
    assert!(import("Q1;2;1;10;x0").unwrap() == mover_grid());
    assert!(import("Q1;2;1;10;14").unwrap() == mover_grid());
    assert!(import("Q1;2;1;10;?0").unwrap() == mover_grid());
}

#[test]
fn import_without_fields_for_the_squares_gives_an_empty_grid() {
    assert!(import("Q1;3;2").unwrap() == Grid::new(3, 2));
}

#[test]
fn import_errors() {
    assert_eq!(import("").unwrap_err(), "missing type specifier");
    assert_eq!(import("   ").unwrap_err(), "missing type specifier");
    assert_eq!(import(";2;1;10").unwrap_err(), "missing type specifier");
    assert_eq!(import("Q3;2;1;10").unwrap_err(), "unknown code type");
    assert_eq!(import("q1;2;1;10").unwrap_err(), "unknown code type");
    assert_eq!(import("Q1").unwrap_err(), "missing width");
    assert_eq!(import("Q1;;1;").unwrap_err(), "missing width");
    assert_eq!(import("Q1;0;1;").unwrap_err(), "missing width");
    assert_eq!(import("Q1;-;1;").unwrap_err(), "missing width");
    assert_eq!(import("Q1;2").unwrap_err(), "missing height");
    assert_eq!(import("Q1;2;;").unwrap_err(), "missing height");
    assert_eq!(import("Q1;2;!;").unwrap_err(), "missing height");
    assert_eq!(import("Q1;zzzzzzzzzzzz;zzzzzzzzzzzz;").unwrap_err(), "missing height");
    assert_eq!(import("Q2;2;1").unwrap_err(), "missing cell data");
    assert_eq!(import("V3;2;1").unwrap_err(), "missing cell data");
    assert_eq!(import("Q2;2;1;!!!").unwrap_err(), "invalid base64");
    assert_eq!(import("Q2;2;1;AAAA").unwrap_err(), "invalid cell data");
    assert_eq!(import("Q1;2;1;10+?").unwrap_err(), "invalid cell data");
    assert_eq!(import("V3;2;1;6;").unwrap(), mover_grid_v3());
    assert_eq!(import("V3;2;1;6[").unwrap_err(), "invalid cell data");
}

fn mover_grid_v3() -> Grid {
    mover_grid()
}

#[test]
fn import_grid_names_the_error() {
    assert_eq!(import_grid("").unwrap_err(), CodeError::MissingType);
    assert_eq!(import_grid("Z9;1;1;").unwrap_err(), CodeError::UnknownCodeType);
    assert_eq!(import_grid("Q1").unwrap_err(), CodeError::MissingWidth);
    assert_eq!(import_grid("Q1;1").unwrap_err(), CodeError::MissingHeight);
    assert_eq!(import_grid("Q2;1;1").unwrap_err(), CodeError::MissingCellData);
    assert_eq!(import_grid("Q2;1;1;*").unwrap_err(), CodeError::InvalidBase64);
    assert_eq!(import_grid("Q1;1;1;0+-").unwrap_err(), CodeError::InvalidCellData);
    assert_eq!(CodeError::MissingType.message(), "missing type specifier");
    assert_eq!(CodeError::MissingWidth.message(), "missing width");
    assert_eq!(CodeError::MissingHeight.message(), "missing height");
    assert_eq!(CodeError::MissingCellData.message(), "missing cell data");
    assert_eq!(CodeError::UnknownCodeType.message(), "unknown code type");
    assert_eq!(CodeError::InvalidBase64.message(), "invalid base64");
    assert_eq!(CodeError::InvalidCellData.message(), "invalid cell data");
}

#[test]
fn decode_q1_reads_a_body() {
    assert!(decode_q1(2, 1, "10;").unwrap() == mover_grid());
    assert!(decode_q1(2, 1, "").unwrap() == Grid::new(2, 1));
    assert_eq!(decode_q1(2, 1, "10+!").unwrap_err(), CodeError::InvalidCellData);
}

#[test]
fn q2_body_writes_byte_numbers() {
    assert_eq!(q2_body(&mover_grid()), vec![5u8, 0]);
    assert_eq!(q2_body(&Grid::new(2, 2)), vec![0u8, 0xff, 4]);
    let mut grid = Grid::new(300, 1);
    for x in 0..300 {
        grid.set(x, 0, Cell::new(MOVER, Direction::Right));
    }
    assert_eq!(q2_body(&grid), vec![5u8, 0xff, 0xfb, 0x31]);
    let mut odd = Grid::new(1, 1);
    odd.set(0, 0, Cell::new(1000, Direction::Up));
    // 1 + 4 * 1000 + 3 = 4004 = 15 * 251 + 239, and 15 = 3 * 4 + 3.
    assert_eq!(q2_body(&odd), vec![0xfdu8, 0xfd, 239]);
}

#[test]
fn decode_q2_cells_reads_byte_numbers() {
    assert!(decode_q2_cells(2, 1, &[5, 0]).unwrap() == mover_grid());
    assert!(decode_q2_cells(2, 2, &[0, 0xff, 4]).unwrap() == Grid::new(2, 2));
    let mut grid = Grid::new(300, 1);
    for x in 0..300 {
        grid.set(x, 0, Cell::new(MOVER, Direction::Right));
    }
    assert!(decode_q2_cells(300, 1, &[5, 0xff, 0xfb, 0x31]).unwrap() == grid);
    assert!(decode_q2_cells(2, 1, &[5, 0, 0, 0, 0, 0, 0]).unwrap() == mover_grid());
    assert!(decode_q2_cells(2, 1, &[]).unwrap() == Grid::new(2, 1));
    // A type outside the catalog is left out.
    assert!(decode_q2_cells(1, 1, &[0xfd, 0xfd, 239]).unwrap() == Grid::new(1, 1));
    assert!(decode_q2_cells(1, 1, &[0xfe, 0xfe, 0xfe, 0xfe, 0xfe, 0xfe, 0xfe, 0xfe, 0xfe, 0xfe,
        0xfe, 0xfe, 0xfe, 0xfe, 0xfe, 0xfe, 0xfe, 0xfe, 0xfe, 0xfe, 0xfe, 0xfe, 0xfe, 0xfe, 0xfe,
        0xfe, 0xfe, 0xfe, 0xfe, 0xfe, 0xfe, 0xfe, 0xfe, 0xfe, 0xfe, 0xfe, 0xfe, 0xfe, 0xfe, 0xfe,
        7]).unwrap() == Grid::new(1, 1));
}

#[test]
fn decode_q2_cells_rejects_what_it_cannot_read() {
    assert_eq!(decode_q2_cells(2, 1, &[0xfb]).unwrap_err(), CodeError::InvalidCellData);
    assert_eq!(decode_q2_cells(2, 1, &[5, 0xff]).unwrap_err(), CodeError::InvalidCellData);
    assert_eq!(decode_q2_cells(2, 1, &[0xff, 5]).unwrap_err(), CodeError::InvalidCellData);
    assert_eq!(decode_q2_cells(2, 1, &[5, 0xff, 0xff]).unwrap_err(), CodeError::InvalidCellData);
}

#[test]
fn decode_q2_unpacks_what_zlib_packed() {
    // The zlib streams of the bytes [5, 0], [0, 0xff, 4] and [5, 0xff, 0xfb, 0x31].
    assert!(decode_q2(2, 1, "eNpjZQAAAAwABg==").unwrap() == mover_grid());
    assert!(import("Q2;2;1;eNpjZQAAAAwABg==").unwrap() == mover_grid());
    assert!(import("Q2;2;2;eNpj+M8CAAIFAQQ=").unwrap() == Grid::new(2, 2));
    let packed = [120u8, 218, 99, 101, 0, 0, 0, 12, 0, 6];
    assert!(decode_q2_packed(2, 1, &packed).unwrap() == mover_grid());
    let mut grid = Grid::new(300, 1);
    for x in 0..300 {
        grid.set(x, 0, Cell::new(MOVER, Direction::Right));
    }
    assert!(import("Q2;4Q;1;eNpj/f/bEAAFPAIx").unwrap() == grid);
}

#[test]
fn decode_q2_rejects_what_it_cannot_unpack() {
    // No zlib stream.
    assert_eq!(decode_q2(2, 1, "AAAA").unwrap_err(), CodeError::InvalidCellData);
    assert_eq!(decode_q2_packed(2, 1, &[5, 0]).unwrap_err(), CodeError::InvalidCellData);
    // The stream of [0xfb], a number that does not end.
    assert_eq!(decode_q2(2, 1, "eNr7DQAA/AD8").unwrap_err(), CodeError::InvalidCellData);
    // The stream of [5, 0xff], a count that is missing.
    assert_eq!(decode_q2(2, 1, "eNpj/Q8AAQsBBQ==").unwrap_err(), CodeError::InvalidCellData);
    // The stream of seven bytes, one more than three for each of two squares.
    assert_eq!(decode_q2(2, 1, "eNpjZQADAAAqAAY=").unwrap_err(), CodeError::InvalidCellData);
    assert!(decode_q2(3, 1, "eNpjZQADAAAqAAY=").unwrap() == {
        let mut grid = Grid::new(3, 1);
        grid.set(0, 0, Cell::new(MOVER, Direction::Right));
        grid
    });
    assert_eq!(decode_q2(2, 1, "eNpjZQAAAAwABg=").unwrap_err(), CodeError::InvalidBase64);
}

#[test]
fn export_q2_packs_the_body_and_writes_it_as_base64() {
    let grid = mover_grid();
    let text = export_q2(&grid);
    assert!(text.starts_with("Q2;2;1;"));
    let body = &text["Q2;2;1;".len()..];
    let packed = base64::engine::general_purpose::STANDARD.decode(body).unwrap();
    assert_ne!(packed, q2_body(&grid));
    let mut raw = vec![0u8; 16];
    let len = libdeflater::Decompressor::new().zlib_decompress(&packed, &mut raw).unwrap();
    assert_eq!(&raw[..len], &[5u8, 0][..]);
    assert_eq!(try_export_q2(&grid), Some(text.clone()));
    assert!(import(&text).unwrap() == grid);
    assert_eq!(q2_frame(2, 1, &packed), text);
    assert_eq!(q2_frame(62, 3, &[1, 2, 3]), "Q2;10;3;AQID");
}

#[test]
fn q2_round_trip_of_a_large_grid() {
    let mut grid = Grid::new(100, 100);
    for i in 0..100 {
        grid.set(i, i, Cell::new((i % 33) as u16, Direction::from_u8((i % 4) as u8)));
        grid.set(99 - i, i, Cell::new(PUSH, Direction::Right));
    }
    let text = try_export_q2(&grid).unwrap();
    assert!(import(&text).unwrap() == grid);
    assert!(import(&export_q1(&grid)).unwrap() == grid);
}

#[test]
fn round_trip_drops_what_a_code_does_not_hold() {
    let mut grid = Grid::new(2, 1);
    let mut mailbox = Cell::new(MAILBOX, Direction::Right);
    mailbox.contained_cell = Some((PUSH, Direction::Up));
    mailbox.set_updated(true);
    grid.set(0, 0, mailbox);
    grid.set(1, 0, Cell::new(500, Direction::Right));
    let back = import(&export_q1(&grid)).unwrap();
    assert_eq!(back.get(0, 0), Some(Cell::new(MAILBOX, Direction::Right)));
    assert_eq!(back.get(0, 0).unwrap().contained_cell, None);
    assert!(!back.get(0, 0).unwrap().updated());
    assert_eq!(back.get(1, 0), None);
    assert!(back != grid);
}

#[test]
fn v3_reads_one_square_for_each_digit() {
    assert!(decode_v3(2, 1, "6").unwrap() == mover_grid());
    assert!(import("V3;2;1;6").unwrap() == mover_grid());
    let grid = decode_v3(5, 1, "0o{Y}").unwrap();
    assert_eq!(grid.get(0, 0), Some(Cell::new(GENERATOR, Direction::Right)));
    // o is 24: type 12 % 9 = 3, the mover, and direction 24 / 18 = 1.
    assert_eq!(grid.get(1, 0), Some(Cell::new(MOVER, Direction::Down)));
    assert_eq!(grid.get(2, 0), None);
    // Y is 60: type 30 % 9 = 3, the mover, and direction 60 / 18 = 3.
    assert_eq!(grid.get(3, 0), Some(Cell::new(MOVER, Direction::Up)));
    assert_eq!(grid.get(4, 0), None);
    // The parity bit is ignored: 7 reads as 6 does.
    assert!(decode_v3(2, 1, "7").unwrap() == mover_grid());
    // 16 and 17 are type 8, the trash; 14 is the enemy, 12 the wall.
    let row = decode_v3(3, 1, "gec").unwrap();
    assert_eq!(row.get(0, 0), Some(Cell::new(TRASH, Direction::Right)));
    assert_eq!(row.get(1, 0), Some(Cell::new(ENEMY, Direction::Right)));
    assert_eq!(row.get(2, 0), Some(Cell::new(WALL, Direction::Right)));
}

#[test]
fn v3_header_is_written_with_74_digits() {
    let grid = import("V3;$;1;6").unwrap();
    assert_eq!(grid.width(), 63);
    assert_eq!(grid.height(), 1);
    assert_eq!(import("Q1;$;1;").unwrap_err(), "missing width");
}

#[test]
fn v3_copies_squares_from_further_back() {
    let mut three = Grid::new(3, 1);
    for x in 0..3 {
        three.set(x, 0, Cell::new(MOVER, Direction::Right));
    }
    // Offset 0 and length 1: two squares, each a copy of the one before it.
    assert!(decode_v3(3, 1, "6)01").unwrap() == three);
    assert!(decode_v3(3, 1, "6(0)1").unwrap() == three);
    assert!(decode_v3(3, 1, "6(0(1)").unwrap() == three);
    assert!(decode_v3(3, 1, "6()1").unwrap() == three);
    // Offset 1: the pattern of two squares is repeated.
    let grid = decode_v3(6, 1, "6{)13").unwrap();
    for x in 0..6 {
        let expected = if x % 2 == 0 { Some(Cell::new(MOVER, Direction::Right)) } else { None };
        assert_eq!(grid.get(x, 0), expected);
    }
    // The length 13 with 74 digits is 77: 78 squares more.
    let wide = decode_v3(80, 1, "6(0(13)").unwrap();
    for x in 0..80 {
        let expected = if x < 79 { Some(Cell::new(MOVER, Direction::Right)) } else { None };
        assert_eq!(wide.get(x, 0), expected);
    }
    assert_eq!(decode_v3(80, 1, "6(0(15)").unwrap_err(), CodeError::InvalidCellData);
}

#[test]
fn v3_rejects_what_it_cannot_read() {
    // More squares than the grid has.
    assert_eq!(decode_v3(2, 1, "666").unwrap_err(), CodeError::InvalidCellData);
    assert_eq!(decode_v3(3, 1, "6)02").unwrap_err(), CodeError::InvalidCellData);
    // A reference further back than there are squares.
    assert_eq!(decode_v3(3, 1, "6)10").unwrap_err(), CodeError::InvalidCellData);
    assert_eq!(decode_v3(3, 1, ")00").unwrap_err(), CodeError::InvalidCellData);
    // A reference that does not end.
    assert_eq!(decode_v3(3, 1, "6)0").unwrap_err(), CodeError::InvalidCellData);
    assert_eq!(decode_v3(3, 1, "6(0").unwrap_err(), CodeError::InvalidCellData);
    assert_eq!(decode_v3(3, 1, "6(0)").unwrap_err(), CodeError::InvalidCellData);
    assert_eq!(decode_v3(3, 1, "6(0(1").unwrap_err(), CodeError::InvalidCellData);
    assert_eq!(decode_v3(3, 1, "6(0((").unwrap_err(), CodeError::InvalidCellData);
    // No digit.
    assert_eq!(decode_v3(3, 1, "6 ").unwrap_err(), CodeError::InvalidCellData);
    assert_eq!(decode_v3(3, 1, "6))0").unwrap_err(), CodeError::InvalidCellData);
    // A number beyond every count of squares.
    assert_eq!(
        decode_v3(3, 1, "6(}}}}}}}}}}}}}}}}}}}})0").unwrap_err(),
        CodeError::InvalidCellData
    );
    assert_eq!(
        decode_v3(3, 1, "6(0(}}}}}}}}}}}}}}}}}}}})").unwrap_err(),
        CodeError::InvalidCellData
    );
}

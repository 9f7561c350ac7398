use pfinder::buffer::{Buffer, Cell, Color};
use pfinder::game::LootKind;
use pfinder::view::{
    draw_overlays, draw_sprite, draw_wall_column, enemy_look, exit_glyph, fill_background, loot_look,
    wall_glyph,
};

#[test]
fn exit_glyph_bands() {
    for d in 0..=3 {
        assert_eq!(exit_glyph(d), ('█', Color::AnsiValue(226)));
    }
    for d in 4..=7 {
        assert_eq!(exit_glyph(d), ('▓', Color::AnsiValue(220)));
    }
    for d in 8..=12 {
        assert_eq!(exit_glyph(d), ('▒', Color::AnsiValue(214)));
    }
    assert_eq!(exit_glyph(13), ('░', Color::AnsiValue(136)));
    assert_eq!(exit_glyph(u32::MAX), ('░', Color::AnsiValue(136)));
}

fn column(b: &Buffer, x: usize, h: usize) -> String {
    (0..h).map(|y| b.cells[y][x].ch).collect()
}

#[test]
fn wall_column_is_centred() {
    let mut b = Buffer::new(5, 10);
    draw_wall_column(&mut b, 10, 2, 4, 0, 0, '#', Color::White, false);
    // half = 5; rows 5 - 2 ..= 5 + 2
    assert_eq!(column(&b, 2, 10), "   #####  ");
    assert_eq!(b.cells[3][2], Cell { ch: '#', fg: Color::White, bg: Color::Black });
}

#[test]
fn tall_wall_column_is_cut_to_the_view() {
    let mut b = Buffer::new(5, 10);
    draw_wall_column(&mut b, 8, 0, 100, 0, 0, '#', Color::White, true);
    assert_eq!(column(&b, 0, 10), "########  ");
    assert_eq!(b.cells[0][0], Cell { ch: '#', fg: Color::Red, bg: Color::AnsiValue(52) });
}

#[test]
fn wall_column_follows_the_shake() {
    let mut b = Buffer::new(5, 10);
    draw_wall_column(&mut b, 10, 4, 2, 1, -1, '#', Color::White, false);
    // column 4 + 1 is kept at the last column; rows 4..=6 move up one
    assert_eq!(column(&b, 4, 10), "   ###    ");
    let mut c = Buffer::new(5, 10);
    draw_wall_column(&mut c, 10, 0, 0, -1, 1, '#', Color::White, false);
    assert_eq!(column(&c, 0, 10), "      #   ");
}

#[test]
fn overlays_crosshair_and_idle_gun() {
    let mut b = Buffer::new(40, 12);
    draw_overlays(&mut b, 10, false, false);
    assert_eq!(b.cells[5][20], Cell { ch: '·', fg: Color::AnsiValue(255), bg: Color::Black });
    // idle gun: 17 columns wide, at column 40 - 18 = 22, rows 7..=9
    let row8: String = b.cells[8][22..39].iter().map(|c| c.ch).collect();
    assert_eq!(row8, "  _______|      >");
    assert_eq!(b.cells[8][24], Cell { ch: '_', fg: Color::AnsiValue(248), bg: Color::Black });
    // blanks of the sprite are transparent
    assert_eq!(b.cells[8][22], Cell::empty());
    assert_eq!(b.cells[10][25], Cell::empty());
}

#[test]
fn overlays_gun_flash() {
    let mut b = Buffer::new(40, 12);
    draw_overlays(&mut b, 10, false, true);
    // firing gun: 18 columns wide, at column 40 - 19 = 21
    let row8: String = b.cells[8][21..39].iter().map(|c| c.ch).collect();
    assert_eq!(row8, "  _______|    *>>>");
    assert_eq!(b.cells[8][35], Cell { ch: '*', fg: Color::Black, bg: Color::AnsiValue(226) });
    assert_eq!(b.cells[8][38], Cell { ch: '>', fg: Color::Black, bg: Color::AnsiValue(226) });
}

#[test]
fn overlays_damage_frame() {
    let mut b = Buffer::new(6, 5);
    draw_overlays(&mut b, 4, true, false);
    let red = |ch| Cell { ch, fg: Color::AnsiValue(196), bg: Color::AnsiValue(52) };
    assert_eq!(b.cells[0][0], red('▄'));
    assert_eq!(b.cells[3][0], red('▀'));
    assert_eq!(b.cells[1][0], red('▌'));
    assert_eq!(b.cells[2][5], red('▐'));
    assert_eq!(b.cells[0][5], red('▄'));
    assert_eq!(b.cells[4][0], Cell::empty());
}

#[test]
fn overlays_on_an_empty_view() {
    let mut b = Buffer::new(0, 0);
    draw_overlays(&mut b, 0, true, true);
    assert_eq!(b.cells[0][0], Cell::empty());
}

#[test]
fn loot_and_enemy_looks() {
    assert_eq!(loot_look(LootKind::Health), ('+', Color::White, Color::AnsiValue(22)));
    assert_eq!(loot_look(LootKind::Ammo), ('*', Color::Black, Color::AnsiValue(220)));
    assert_eq!(enemy_look(true), ('M', Color::White, Color::AnsiValue(124)));
    assert_eq!(enemy_look(false), ('X', Color::AnsiValue(240), Color::Black));
}

fn row_chars(b: &Buffer, y: usize) -> String {
    b.cells[y][..b.width].iter().map(|c| c.ch).collect()
}

#[test]
fn sprite_block_is_centred() {
    let mut b = Buffer::new(10, 10);
    let visible = vec![true; 10];
    // half = 5, sprite_h = 4: rows 3..=7; width max(4/2+1, 2) = 3: columns 4..=6
    draw_sprite(&mut b, 10, 5, 4, &visible, 'M', Color::White, Color::AnsiValue(124));
    assert_eq!(row_chars(&b, 2), "          ");
    for y in 3..=7 {
        assert_eq!(row_chars(&b, y), "    █M█   ");
    }
    assert_eq!(row_chars(&b, 8), "          ");
    assert_eq!(b.cells[5][5], Cell { ch: 'M', fg: Color::White, bg: Color::AnsiValue(124) });
    assert_eq!(b.cells[5][4], Cell { ch: '█', fg: Color::White, bg: Color::AnsiValue(124) });
}

#[test]
fn sprite_behind_the_wall_is_hidden() {
    let mut b = Buffer::new(10, 10);
    let mut visible = vec![true; 10];
    visible[4] = false;
    visible[5] = false;
    draw_sprite(&mut b, 10, 5, 4, &visible, '+', Color::White, Color::AnsiValue(22));
    assert_eq!(row_chars(&b, 5), "      █   ");
}

#[test]
fn sprite_is_cut_to_the_view() {
    let mut b = Buffer::new(6, 8);
    let visible = vec![true; 6];
    // a huge sprite near the left edge; the view is the top 4 rows
    draw_sprite(&mut b, 4, 0, 100, &visible, '*', Color::Black, Color::AnsiValue(220));
    for y in 0..4 {
        assert_eq!(row_chars(&b, y), "*█████");
    }
    for y in 4..8 {
        assert_eq!(row_chars(&b, y), "      ");
    }
}

#[test]
fn sprite_off_screen_draws_nothing() {
    let mut b = Buffer::new(6, 6);
    let visible = vec![true; 6];
    draw_sprite(&mut b, 6, -20, 4, &visible, 'M', Color::White, Color::Red);
    draw_sprite(&mut b, 6, 3, -4, &visible, 'M', Color::White, Color::Red);
    for y in 0..6 {
        assert_eq!(row_chars(&b, y), "      ");
    }
}

#[test]
fn background_rows_take_their_shades() {
    let mut b = Buffer::new(3, 4);
    b.put(1, 3, '#', Color::White, Color::Red);
    let shades = vec![Color::AnsiValue(239), Color::AnsiValue(235), Color::AnsiValue(232)];
    fill_background(&mut b, 3, &shades);
    for y in 0..3 {
        for x in 0..3 {
            assert_eq!(b.cells[y][x], Cell { ch: ' ', fg: Color::Black, bg: shades[y] });
        }
    }
    // the row below the view is left alone
    assert_eq!(b.cells[3][1], Cell { ch: '#', fg: Color::White, bg: Color::Red });
    assert_eq!(b.cells[3][0], Cell { ch: ' ', fg: Color::Black, bg: Color::Black });
}

#[test]
fn wall_shading_bands() {
    assert_eq!(wall_glyph(0, 0), ('█', Color::AnsiValue(254)));
    assert_eq!(wall_glyph(1, 1), ('█', Color::AnsiValue(250)));
    assert_eq!(wall_glyph(3, 0), ('█', Color::AnsiValue(251)));
    assert_eq!(wall_glyph(4, 0), ('▓', Color::AnsiValue(248)));
    assert_eq!(wall_glyph(6, 1), ('▓', Color::AnsiValue(240)));
    assert_eq!(wall_glyph(7, 0), ('▒', Color::AnsiValue(245)));
    assert_eq!(wall_glyph(10, 0), ('▒', Color::AnsiValue(239)));
    assert_eq!(wall_glyph(11, 1), ('░', Color::AnsiValue(234)));
    assert_eq!(wall_glyph(14, 0), ('░', Color::AnsiValue(236)));
    assert_eq!(wall_glyph(15, 0), ('░', Color::AnsiValue(236)));
    assert_eq!(wall_glyph(15, 1), ('░', Color::AnsiValue(232)));
    assert_eq!(wall_glyph(16, 0), (' ', Color::Black));
    assert_eq!(wall_glyph(u32::MAX, 1), (' ', Color::Black));
}

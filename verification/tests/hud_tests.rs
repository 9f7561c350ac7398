use pfinder::buffer::{Buffer, Cell, Color};
use pfinder::hud::{render_hud, HudStatus};

fn row_text(b: &Buffer, y: usize) -> String {
    b.cells[y].iter().map(|c| c.ch).collect()
}

fn status() -> HudStatus {
    HudStatus { hp: 100, ammo: 30, time_secs: 74, time_urgency: 0, compass: 'N' }
}

#[test]
fn hud_frame_and_status_line() {
    let mut b = Buffer::new(80, 24);
    render_hud(&mut b, &status(), 80, 20);
    let top = row_text(&b, 20);
    assert!(top.starts_with("╔──"));
    assert!(top.ends_with("──╗"));
    let bottom = row_text(&b, 23);
    assert!(bottom.starts_with("╚─") && bottom.ends_with("─╝"));
    let line = row_text(&b, 21);
    let expected = "HP ████████████ 100 │ AMMO 30/30 │ TIME  74s │ N │ FIND THE EXIT";
    assert_eq!(line.chars().skip(2).take(expected.chars().count()).collect::<String>(), expected);
    assert!(line.starts_with("║ HP"));
    assert!(line.ends_with(" ║"));
    assert_eq!(b.cells[21][5].fg, Color::AnsiValue(40));
    assert_eq!(b.cells[21][79], Cell { ch: '║', fg: Color::AnsiValue(240), bg: Color::Black });
}

#[test]
fn hud_key_line_overwrites_the_right_rule_when_it_runs_out_of_room() {
    let mut b = Buffer::new(80, 24);
    render_hud(&mut b, &status(), 80, 20);
    let keys = row_text(&b, 22);
    let expected = "║ [W/S] Move · [A/D] Turn · [← →] Strafe · [SPACE] Shoot · [R] Restart · [Q/ESC ";
    assert_eq!(keys, expected);
    assert_eq!(b.cells[22][2], Cell { ch: '[', fg: Color::AnsiValue(226), bg: Color::AnsiValue(235) });
    assert_eq!(b.cells[22][79], Cell { ch: ' ', fg: Color::AnsiValue(244), bg: Color::Black });
    assert_eq!(b.cells[22][13], Cell { ch: '·', fg: Color::AnsiValue(238), bg: Color::Black });
}

#[test]
fn hud_colours_follow_the_thresholds() {
    let mut b = Buffer::new(80, 24);
    let s = HudStatus { hp: 40, ammo: 5, time_secs: 8, time_urgency: 2, compass: 'W' };
    render_hud(&mut b, &s, 80, 20);
    let line = row_text(&b, 21);
    // 40 hit points fill round(40 / 100 * 12) = 5 of the 12 bar cells
    let expected = "HP █████░░░░░░░ 40 │ AMMO  5/30 │ TIME   8s │ W │ FIND THE EXIT";
    assert_eq!(line.chars().skip(2).take(expected.chars().count()).collect::<String>(), expected);
    assert_eq!(b.cells[21][5].fg, Color::AnsiValue(220));
    assert_eq!(b.cells[21][10].fg, Color::AnsiValue(236));
    let ammo_col = 2 + "HP ████████████ 40 │ AMMO ".chars().count();
    assert_eq!(b.cells[21][ammo_col + 1].fg, Color::AnsiValue(220));
    let time_col = 2 + "HP ████████████ 40 │ AMMO  5/30 │ TIME ".chars().count();
    assert_eq!(b.cells[21][time_col + 2].fg, Color::AnsiValue(196));
}

#[test]
fn hud_bar_rounds_to_the_nearest_cell() {
    let cases = [(0, 0), (4, 0), (5, 1), (8, 1), (9, 1), (12, 1), (13, 2), (95, 11), (96, 12), (-20, 0)];
    for (hp, fill) in cases {
        let mut b = Buffer::new(80, 24);
        let s = HudStatus { hp, ammo: 0, time_secs: 0, time_urgency: 1, compass: 'E' };
        render_hud(&mut b, &s, 80, 20);
        let bar: String = b.cells[21][5..17].iter().map(|c| c.ch).collect();
        let want: String = "█".repeat(fill) + &"░".repeat(12 - fill);
        assert_eq!(bar, want, "hp {hp}");
        let hp_color = if hp > 60 {
            Color::AnsiValue(40)
        } else if hp > 25 {
            Color::AnsiValue(220)
        } else {
            Color::AnsiValue(196)
        };
        assert_eq!(b.cells[21][5].fg, if fill > 0 { hp_color } else { Color::AnsiValue(236) });
    }
}

#[test]
fn hud_is_clipped_on_a_narrow_screen() {
    let mut b = Buffer::new(10, 8);
    render_hud(&mut b, &status(), 10, 4);
    assert_eq!(row_text(&b, 5), "║ HP ████║");
    assert_eq!(row_text(&b, 6), "║ [W/S] M ");
}

#[test]
fn hud_needs_four_rows() {
    let mut b = Buffer::new(80, 23);
    let before = b.cells.clone();
    render_hud(&mut b, &status(), 80, 20);
    assert_eq!(b.cells, before);
}

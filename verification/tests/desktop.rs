use thos::clock::hh_mm_ss;
use thos::framebuffer::{smoke_offset, smoke_pixel};
use thos::tarnod_client::{poll_once, socket_path, status_of, update, Reply, TarnodStatus};
use thos::taskbar::{Glyph, HEIGHT, Ink, Item, Taskbar, Theme, bar_top, draw_dot, draw_top_highlight, fill_bg, ink, isolated_label, needs_refresh, plan, stamp};

fn theme() -> Theme {
    Theme {
        bg_panel: [10, 20, 30],
        accent: [1, 2, 3],
        success: [0, 200, 0],
        danger: [200, 0, 0],
        text_muted: [100, 100, 100],
        text_primary: [255, 255, 255],
    }
}

fn c(s: &str) -> Vec<char> {
    s.chars().collect()
}

#[test]
fn clock_is_padded() {
    assert_eq!(hh_mm_ss(0, 0, 0), "00:00:00");
    assert_eq!(hh_mm_ss(9, 5, 7), "09:05:07");
    let s = hh_mm_ss(23, 59, 60);
    assert_eq!(s, "23:59:60");
    assert_eq!(s.len(), 8);
    assert_eq!(s.as_bytes()[2], b':');
    assert_eq!(s.as_bytes()[5], b':');
}

#[test]
fn produces_hh_mm_ss_format() {
    for (h, m, sec) in [(0, 0, 0), (7, 8, 9), (12, 34, 56), (23, 59, 59), (23, 59, 60)] {
        let s = hh_mm_ss(h, m, sec);
        assert_eq!(s.len(), 8);
        assert_eq!(s.as_bytes()[2], b':');
        assert_eq!(s.as_bytes()[5], b':');
        for (i, c) in s.chars().enumerate() {
            if i == 2 || i == 5 {
                continue;
            }
            assert!(c.is_ascii_digit(), "{c} at {i}");
        }
        let n = |at: usize| s[at..at + 2].parse::<u32>().unwrap();
        assert_eq!((n(0), n(3), n(6)), (h, m, sec));
    }
}

#[test]
fn blending_equals_the_rounded_fraction() {
    // One pixel, one glyph: every coverage, foreground and background.
    for cov in 1..=255u8 {
        for fg in (0..=255u8).step_by(5) {
            for bg in (0..=255u8).step_by(3) {
                let mut b = vec![bg, bg, bg, 0];
                let g = Glyph { x: 0, y: 0, width: 1, height: 1, coverage: vec![cov] };
                stamp(&mut b, 1, 1, &g, [fg, fg, fg]);
                let a = f32::from(cov) / 255.0;
                let want = (f32::from(fg) * a + f32::from(bg) * (1.0 - a)).round() as u8;
                assert_eq!(b, vec![want, want, want, 255], "{} {} {}", cov, fg, bg);
            }
        }
    }
}

#[test]
fn glyphs_out_of_reach_are_not_drawable() {
    let far = 0x1_0000_0000i64;
    let g = |x: i64, y: i64, n: usize| Glyph { x, y, width: 2, height: 3, coverage: vec![0; n] };
    assert!(g(far, -far, 6).is_drawable());
    assert!(!g(far + 1, 0, 6).is_drawable());
    assert!(!g(0, -far - 1, 6).is_drawable());
    assert!(!g(0, 0, 5).is_drawable());
}

#[test]
fn uncovered_pixels_stay() {
    let mut b = vec![1, 2, 3, 4];
    let g = Glyph { x: 0, y: 0, width: 1, height: 1, coverage: vec![0] };
    stamp(&mut b, 1, 1, &g, [9, 9, 9]);
    assert_eq!(b, vec![1, 2, 3, 4]);
}

#[test]
fn glyphs_are_clipped() {
    let mut b = vec![0u8; 4 * 3 * 2];
    let g = Glyph { x: -1, y: -1, width: 2, height: 2, coverage: vec![255; 4] };
    stamp(&mut b, 3, 2, &g, [7, 8, 9]);
    let mut want = vec![0u8; 24];
    want[..4].copy_from_slice(&[7, 8, 9, 255]);
    assert_eq!(b, want);
    let far = Glyph { x: -500, y: 5000, width: 2, height: 2, coverage: vec![255; 4] };
    stamp(&mut b, 3, 2, &far, [1, 1, 1]);
    assert_eq!(b, want);
    // Off the right edge nothing wraps to the next row.
    let edge = Glyph { x: 2, y: 0, width: 2, height: 1, coverage: vec![255; 2] };
    stamp(&mut b, 3, 2, &edge, [5, 5, 5]);
    assert_eq!(&b[8..16], &[5, 5, 5, 255, 0, 0, 0, 0]);
}

#[test]
fn background_and_highlight_are_painted() {
    let mut b = vec![0u8; 16];
    fill_bg(&mut b, [1, 2, 3]);
    assert_eq!(b, [1, 2, 3, 255].repeat(4));
    draw_top_highlight(&mut b, 2);
    assert_eq!(&b[..8], &[255, 255, 255, 40, 255, 255, 255, 40]);
    assert_eq!(&b[8..], &[1, 2, 3, 255, 1, 2, 3, 255]);
}

#[test]
fn dots_are_round() {
    let (w, h) = (11usize, 11usize);
    let mut b = vec![0u8; 4 * w * h];
    draw_dot(&mut b, w, h, 5, 5, 4, [9, 8, 7]);
    for y in 0..h {
        for x in 0..w {
            let (dx, dy) = (x as i32 - 5, y as i32 - 5);
            let want: [u8; 4] = if dx * dx + dy * dy <= 16 { [9, 8, 7, 255] } else { [0; 4] };
            let i = 4 * (y * w + x);
            assert_eq!(b[i..i + 4], want);
        }
    }
    let before = b.clone();
    draw_dot(&mut b, w, h, -100, 200, 4, [1, 1, 1]);
    assert_eq!(b, before);
}

#[test]
fn render_produces_correctly_sized_buffer() {
    let taskbar = Taskbar::new(theme());
    let status = TarnodStatus::default();
    let buf = taskbar.render(800, &status, &vec![]);
    assert_eq!(buf.len(), 800 * HEIGHT as usize * 4);
}

#[test]
fn render_handles_zero_width_without_panicking() {
    let taskbar = Taskbar::new(theme());
    let status = TarnodStatus::default();
    assert_eq!(taskbar.render(0, &status, &vec![]).len(), 160);
}

#[test]
fn connected_status_renders_differently_from_disconnected() {
    let taskbar = Taskbar::new(theme());
    let connected = TarnodStatus { connected: true, isolated_cpus: None, ebpf_active: None };
    let disconnected = TarnodStatus::default();
    let buf_a = taskbar.render(400, &connected, &vec![]);
    let buf_b = taskbar.render(400, &disconnected, &vec![]);
    assert_ne!(buf_a, buf_b);
    let dot = 4 * (20 * 400 + 100);
    assert_eq!(&buf_a[dot..dot + 4], &[0, 200, 0, 255]);
    assert_eq!(&buf_b[dot..dot + 4], &[200, 0, 0, 255]);
    assert_eq!(&buf_a[..4], &[255, 255, 255, 40]);
    assert_eq!(&buf_a[4 * 400..4 * 400 + 4], &[10, 20, 30, 255]);
}

#[test]
fn texts_have_the_colour_of_their_place() {
    let bar = Taskbar::new(theme());
    let cell = |x: i64| Glyph { x, y: 20, width: 1, height: 1, coverage: vec![255] };
    let at = |b: &[u8], x: usize| b[4 * (20 * 200 + x)..4 * (20 * 200 + x) + 3].to_vec();
    // The dot goes over the first text, and later texts over the dot.
    let a = bar.render(200, &TarnodStatus::default(), &vec![vec![cell(100), cell(2)]]);
    assert_eq!(at(&a, 100), vec![200, 0, 0]);
    assert_eq!(at(&a, 2), ink(&theme(), Ink::Accent).to_vec());
    let b = bar.render(200, &TarnodStatus::default(), &vec![vec![], vec![cell(100)], vec![cell(3)]]);
    assert_eq!(at(&b, 100), ink(&theme(), Ink::Muted).to_vec());
    assert_eq!(at(&b, 3), ink(&theme(), Ink::Primary).to_vec());
    let c = bar.render(200, &status_of(Some("2-3".to_string()), None), &vec![vec![], vec![], vec![cell(3)]]);
    assert_eq!(at(&c, 3), ink(&theme(), Ink::Success).to_vec());
}

fn texts(v: &[Item]) -> Vec<(i32, u32, String)> {
    v.iter().map(|i| (i.x, i.size, i.text.iter().collect())).collect()
}

#[test]
fn texts_are_laid_out() {
    let mut s = TarnodStatus::default();
    let p = plan(800, &s, &c("12:34:56"), 0, 70);
    assert_eq!(
        texts(&p),
        vec![
            (14, 17, "TARNO".to_string()),
            (112, 13, "tarnod getrennt".to_string()),
            (714, 16, "12:34:56".to_string()),
        ]
    );
    s = status_of(Some("2-7".to_string()), Some(true));
    let p = plan(800, &s, &c("x"), 90, 10);
    assert_eq!(
        texts(&p)[1..4],
        [
            (112, 13, "tarnod verbunden".to_string()),
            (260, 13, "isolcpus 2-7".to_string()),
            (366, 13, "eBPF aktiv".to_string()),
        ]
    );
    assert!(p[3].ink == Ink::Success);
    assert!(p.iter().all(|i| i.y == 25));
    s = status_of(Some(String::new()), Some(false));
    let p = plan(100, &s, &c("x"), 90, 10);
    assert_eq!(texts(&p)[2], (260, 13, "eBPF inaktiv".to_string()));
    assert!(p[2].ink == Ink::Muted);
    assert!(isolated_label(&s).is_none());
    assert_eq!(ink(&theme(), Ink::Muted), [100, 100, 100]);
}

#[test]
fn bar_is_redrawn_once_a_second() {
    assert!(needs_refresh(None, 800, 0));
    assert!(needs_refresh(Some((799, 0)), 800, 1));
    assert!(!needs_refresh(Some((800, 500)), 800, 1499));
    assert!(needs_refresh(Some((800, 500)), 800, 1500));
    assert_eq!(bar_top(1080), 1040);
    assert_eq!(bar_top(39), 0);
    assert_eq!(bar_top(i32::MIN), 0);
}

#[test]
fn answers_become_a_status() {
    let gaming = Reply::Data("{\"isolated_cpus\": \"2-7\", \"x\": 1}".to_string());
    let security = Reply::Data("{\"ebpf_active\": true}".to_string());
    let s = poll_once(&gaming, &security);
    assert!(s.connected);
    assert_eq!(s.isolated_cpus, Some("2-7".to_string()));
    assert_eq!(s.ebpf_active, Some(true));
    let s = poll_once(&Reply::Error, &Reply::Error);
    assert!(s.connected && s.isolated_cpus.is_none() && s.ebpf_active.is_none());
    let s = poll_once(&security, &gaming);
    assert!(s.isolated_cpus.is_none() && s.ebpf_active.is_none());
    let s = poll_once(&Reply::Data("{\"isolated_cpus\": null}".to_string()), &Reply::Data("no json".to_string()));
    assert!(s.isolated_cpus.is_none() && s.ebpf_active.is_none());
}

#[test]
fn lost_connections_keep_what_was_known() {
    let mut s = status_of(Some("1".to_string()), Some(false));
    update(&mut s, None);
    assert!(!s.connected);
    assert_eq!(s.isolated_cpus, Some("1".to_string()));
    assert_eq!(s.ebpf_active, Some(false));
    update(&mut s, Some(status_of(None, None)));
    assert!(s.connected && s.isolated_cpus.is_none());
}

#[test]
fn socket_has_a_usual_place() {
    assert_eq!(socket_path(None), "/run/tarnod/tarnod.sock");
    assert_eq!(socket_path(Some("/tmp/s".to_string())), "/tmp/s");
}

#[test]
fn gradient_runs_across_the_screen() {
    assert_eq!(smoke_pixel(0, 0, 640, 480), 0x00_2000);
    assert_eq!(smoke_pixel(639, 479, 640, 480), 0xFE_20FE);
    assert_eq!(smoke_pixel(320, 0, 640, 480), 0x7F_2000);
    assert_eq!(smoke_offset(3, 2, 2560, 4), 5132);
}

use orbit::catalog::AppEntry;
use orbit::icon::{decode_png, frame_pixels, IconError};
use orbit::login::{is_enabled, login_outcome, LoginStatus};
use orbit::order::{lex_less, order_by_key};
use orbit::scanner::{latest, rescan_due, Scanner};
use orbit::shell::Request;
use orbit::text::{char_codes, chars_of, is_blank, same_text};
use orbit::tray::{request_for_menu, RESCAN_ID, SHOW_ID};

#[test]
fn menu_ids() {
    assert_eq!(request_for_menu(SHOW_ID), Some(Request::Show));
    assert_eq!(request_for_menu(RESCAN_ID), Some(Request::Rescan));
    assert_eq!(request_for_menu("quit"), None);
    assert_eq!(request_for_menu("Show"), None);
}

#[test]
fn login_outcomes() {
    assert!(is_enabled(LoginStatus::Enabled));
    assert!(!is_enabled(LoginStatus::RequiresApproval));
    let o = login_outcome(true, LoginStatus::RequiresApproval);
    assert!(o.open_settings && !o.enabled);
    let o = login_outcome(false, LoginStatus::RequiresApproval);
    assert!(!o.open_settings && !o.enabled);
    let o = login_outcome(true, LoginStatus::Enabled);
    assert!(!o.open_settings && o.enabled);
    let o = login_outcome(false, LoginStatus::NotRegistered);
    assert!(!o.open_settings && !o.enabled);
    assert!(!login_outcome(true, LoginStatus::NotFound).enabled);
}

#[test]
fn rescan_interval() {
    assert!(!rescan_due(0));
    assert!(!rescan_due(29_999));
    assert!(rescan_due(30_000));
    assert!(rescan_due(1_000_000));
}

#[test]
fn newest_scan_wins() {
    assert_eq!(latest(Vec::<u8>::new()), None);
    assert_eq!(latest(vec![1, 2, 3]), Some(3));
}

#[test]
fn scanner_hands_over_the_newest_scan() {
    let mut scanner = Scanner::new();
    assert!(scanner.drain().is_none());
    let tx = scanner.force();
    tx.send(vec![AppEntry { name: "Old".to_string(), path: "/old.app".to_string() }]).unwrap();
    tx.send(vec![AppEntry { name: "New".to_string(), path: "/new.app".to_string() }]).unwrap();
    let got = scanner.drain().unwrap();
    assert_eq!(got[0].name, "New");
    assert!(scanner.drain().is_none());
    assert!(scanner.refresh_after(30_000).is_some());
    assert!(scanner.refresh_after(10).is_none());
    assert!(scanner.refresh().is_none());
}

#[test]
fn text_helpers() {
    assert_eq!(chars_of("héllo"), vec!['h', 'é', 'l', 'l', 'o']);
    assert_eq!(char_codes("A€"), vec![0x41, 0x20ac]);
    assert!(is_blank(""));
    assert!(is_blank(" \n\t\u{2009}"));
    assert!(!is_blank(" a "));
    assert!(!is_blank("\u{200b}"));
    assert!(same_text("abc", "abc"));
    assert!(!same_text("abc", "abd"));
    assert!(!same_text("abc", "ab"));
}

#[test]
fn lexicographic_keys() {
    assert!(lex_less(&vec![1, 2], &vec![1, 3]));
    assert!(lex_less(&vec![1, 2], &vec![1, 2, 0]));
    assert!(!lex_less(&vec![1, 2], &vec![1, 2]));
    assert!(!lex_less(&vec![2], &vec![1, 9]));
    assert!(lex_less(&vec![], &vec![0]));
}

#[test]
fn stable_ordering_by_key() {
    let keys = vec![vec![2], vec![1], vec![2], vec![0, 5]];
    assert_eq!(order_by_key(&vec![0, 1, 2, 3], &keys), vec![3, 1, 0, 2]);
    assert_eq!(order_by_key(&vec![2, 0], &keys), vec![0, 2]);
    assert_eq!(order_by_key(&vec![], &keys), Vec::<usize>::new());
}

fn tiny_png() -> Vec<u8> {
    let mut bytes = Vec::new();
    {
        let mut encoder = png::Encoder::new(&mut bytes, 2, 1);
        encoder.set_color(png::ColorType::Rgba);
        encoder.set_depth(png::BitDepth::Eight);
        let mut writer = encoder.write_header().unwrap();
        writer.write_image_data(&[1, 2, 3, 4, 5, 6, 7, 8]).unwrap();
    }
    bytes
}

#[test]
fn decodes_a_png() {
    let image = decode_png(&tiny_png()).unwrap();
    assert_eq!((image.width, image.height), (2, 1));
    assert_eq!(image.rgba, vec![1, 2, 3, 4, 5, 6, 7, 8]);
}

#[test]
fn rejects_what_is_not_a_png() {
    assert_eq!(decode_png(b"hello").err(), Some(IconError::NotPng));
}

#[test]
fn rejects_a_cut_off_png() {
    let bytes = tiny_png();
    let cut = &bytes[..bytes.len() - 20];
    assert_eq!(decode_png(cut).err(), Some(IconError::Undecodable));
}

#[test]
fn frame_pixels_cut_to_the_frame() {
    assert_eq!(frame_pixels(vec![1, 2, 3, 4], 2), vec![1, 2]);
    assert_eq!(frame_pixels(vec![1, 2], 5), vec![1, 2]);
}

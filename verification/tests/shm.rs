use wl_pick::shm::{Chrome, Painter, SLOTS, rgb};
use wl_pick::theme::Rect;

fn rect(x: i32, y: i32, w: i32, h: i32) -> Rect {
    Rect { x, y, w, h }
}

/// The picture, one letter to a pixel: by its blue byte.
fn letters(px: &[u8], w: usize) -> Vec<String> {
    px.chunks_exact(4 * w)
        .map(|row| row.chunks_exact(4).map(|p| p[0] as char).collect())
        .collect()
}

#[test]
fn colours_lie_in_memory_as_bgra() {
    let mut px = vec![0u8; 8];
    Painter::new(&mut px, 2, 1).fill(0x80010203);
    assert_eq!(px, vec![3, 2, 1, 0x80, 3, 2, 1, 0x80]);
    assert_eq!(rgb(0xff0a0b0c), (0x0a, 0x0b, 0x0c));
}

#[test]
fn rectangles_are_clipped_to_the_surface() {
    let mut px = vec![b'.'; 4 * 4 * 3];
    let mut p = Painter::new(&mut px, 4, 3);
    p.rect(rect(-2, 1, 4, 100), b'a' as u32);
    p.rect(rect(3, -5, 1, 6), b'b' as u32);
    p.rect(rect(10, 10, 5, 5), b'c' as u32);
    assert_eq!(letters(&px, 4), vec!["...b", "aa..", "aa.."]);
}

#[test]
fn a_frame_hugs_the_edge() {
    let mut px = vec![b'.'; 4 * 5 * 4];
    Painter::new(&mut px, 5, 4).frame(1, b'#' as u32);
    assert_eq!(letters(&px, 5), vec!["#####", "#...#", "#...#", "#####"]);
}

#[test]
fn glyphs_blend_by_their_coverage() {
    let mut px = vec![100u8; 4 * 3];
    let mut p = Painter::new(&mut px, 3, 1);
    // Half covered, wholly covered, and outside the clip.
    p.blend(rect(0, 0, 1, 1), (200, 0, 50, 128), rect(0, 0, 2, 1));
    p.blend(rect(1, 0, 9, 1), (200, 0, 50, 255), rect(0, 0, 2, 1));
    p.blend(rect(0, 0, 3, 1), (1, 1, 1, 0), rect(0, 0, 3, 1));
    assert_eq!(
        px,
        vec![74, 49, 150, 255, 50, 0, 200, 255, 100, 100, 100, 100]
    );
    let mut px = vec![0u8; 4 * 3];
    let mut p = Painter::new(&mut px, 3, 1);
    p.glyph(rect(1, 0, 1, 1), -1, 0, 5, 1, (9, 8, 7, 255));
    assert_eq!(px, vec![0, 0, 0, 0, 7, 8, 9, 255, 0, 0, 0, 0]);
}

#[test]
fn two_slots_take_turns() {
    assert_eq!(Chrome::stride(5), 20);
    assert_eq!(Chrome::slot_len(5, 3), 60);
    let mut chrome = Chrome::new(5, 3);
    assert_eq!((chrome.next_slot(), chrome.slot), (60, 1), "the offset of the other slot");
    assert_eq!((chrome.next_slot(), chrome.slot), (0, 0));
    let chrome = Chrome::new(2, 1);
    let mut map = vec![0u8; 8 * SLOTS];
    chrome.painter(&mut map, 1).fill(0x01010101);
    assert_eq!(&map[..8], &[0; 8]);
    assert_eq!(&map[8..], &[1; 8]);
    chrome.painter(&mut map, 0).fill(0x02020202);
    assert_eq!(&map[..8], &[2; 8]);
    assert_eq!(&map[8..], &[1; 8]);
}

use ws2812b_driver::channel::{WordQueue, QUEUE_DEPTH};
use ws2812b_driver::command::Command;
use ws2812b_driver::framebuffer::{grb_word, Framebuffer, STRIP_COUNT, STRIP_LEN};

fn word(strip: usize, pixel: usize, rgb: (u8, u8, u8)) -> u32 {
    Command { strip, pixel, rgb }.to_u32()
}

#[test]
fn new_framebuffer_is_unassigned() {
    let fb = Framebuffer::new();
    for strip in 0..STRIP_COUNT {
        for pixel in [0, 1, 255, STRIP_LEN - 1] {
            assert_eq!(fb.slot(strip, pixel), None);
        }
    }
}

#[test]
fn apply_sets_one_slot() {
    let mut fb = Framebuffer::new();
    fb.apply(word(2, 511, (10, 20, 30)));
    assert_eq!(fb.slot(2, 511), Some((10, 20, 30)));
    assert_eq!(fb.slot(2, 510), None);
    assert_eq!(fb.slot(3, 511), None);
}

#[test]
fn queue_drains_in_order_and_last_write_wins() {
    let w1 = word(1, 5, (2, 4, 6));
    let w2 = word(0, 0, (8, 8, 8));
    let w3 = word(1, 5, (100, 102, 104));
    let mut queue = WordQueue::new();
    queue.write(w1);
    queue.write(w2);
    queue.write(w3);
    let mut fb = Framebuffer::new();
    let drained = fb.drain(&mut queue);
    assert_eq!(drained, vec![w1, w2, w3]);
    assert!(!queue.has_data());
    assert_eq!(fb.slot(1, 5), Some((100, 102, 104)));
    assert_eq!(fb.slot(0, 0), Some((8, 8, 8)));
}

#[test]
fn drain_of_empty_queue_changes_nothing() {
    let mut queue = WordQueue::new();
    let mut fb = Framebuffer::new();
    assert!(fb.drain(&mut queue).is_empty());
    assert_eq!(fb.slot(0, 0), None);
}

#[test]
fn queue_reports_space_and_data() {
    let mut queue = WordQueue::new();
    assert!(queue.has_space());
    assert!(!queue.has_data());
    for i in 0..QUEUE_DEPTH {
        assert!(queue.has_space());
        queue.write(i as u32);
    }
    assert!(!queue.has_space());
    assert!(queue.has_data());
    assert_eq!(queue.read(), Some(0));
    assert!(queue.has_space());
    let mut fb = Framebuffer::new();
    assert_eq!(fb.drain(&mut queue).len(), QUEUE_DEPTH - 1);
    assert_eq!(queue.read(), None);
}

#[test]
fn apply_all_keeps_order() {
    let mut fb = Framebuffer::new();
    fb.apply_all(&[word(3, 3, (2, 2, 2)), word(3, 3, (4, 4, 4))]);
    assert_eq!(fb.slot(3, 3), Some((4, 4, 4)));
}

#[test]
fn grb_word_orders_green_red_blue() {
    assert_eq!(grb_word((0x11, 0x22, 0x33)), 0x2211_3300);
    assert_eq!(grb_word((0xFF, 0, 0)), 0x00FF_0000);
}

#[test]
fn refresh_stops_at_first_gap() {
    let mut fb = Framebuffer::new();
    fb.apply(word(0, 0, (2, 4, 6)));
    fb.apply(word(0, 2, (8, 10, 12)));
    assert_eq!(fb.strip_words(0), vec![grb_word((2, 4, 6))]);
}

#[test]
fn refresh_skips_unassigned_strip() {
    let mut fb = Framebuffer::new();
    fb.apply(word(0, 1, (2, 4, 6)));
    assert!(fb.strip_words(0).is_empty());
    assert!(fb.strip_words(1).is_empty());
}

#[test]
fn refresh_sends_full_strip() {
    let mut fb = Framebuffer::new();
    for pixel in 0..STRIP_LEN {
        fb.apply(word(3, pixel, ((pixel % 128) as u8 * 2, 0, 2)));
    }
    let words = fb.strip_words(3);
    assert_eq!(words.len(), STRIP_LEN);
    assert_eq!(words[5], grb_word((10, 0, 2)));
}

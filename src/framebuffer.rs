//! The consumer core's pixel state: four strips of 512 optional colors,
//! filled from packed words and read back in refresh order.

use vstd::prelude::*;
use crate::channel::{WordQueue, QUEUE_DEPTH};
use crate::command::{unpacked, Command};

verus! {

/// The number of strips.
pub const STRIP_COUNT: usize = 4;

/// The number of pixel slots per strip.
pub const STRIP_LEN: usize = 512;

/// An RGB color.
pub type Rgb = (u8, u8, u8);

/// The state of every strip: `strips[s][p]` is the color of pixel `p` of
/// strip `s`, or `None` while it is unassigned.
pub open spec fn has_shape(strips: Seq<Seq<Option<Rgb>>>) -> bool {
    &&& strips.len() == STRIP_COUNT
    &&& forall|s: int| 0 <= s < STRIP_COUNT ==> (#[trigger] strips[s]).len() == STRIP_LEN
}

/// The state after applying one packed word: its slot takes its color.
pub open spec fn with_word(strips: Seq<Seq<Option<Rgb>>>, word: u32) -> Seq<Seq<Option<Rgb>>> {
    let c = unpacked(word);
    strips.update(c.strip as int, strips[c.strip as int].update(c.pixel as int, Some(c.rgb)))
}

/// The state after applying `words` in order.
pub open spec fn with_words(strips: Seq<Seq<Option<Rgb>>>, words: Seq<u32>) -> Seq<
    Seq<Option<Rgb>>,
>
    decreases words.len(),
{
    if words.len() == 0 {
        strips
    } else {
        with_word(with_words(strips, words.drop_last()), words.last())
    }
}

/// Whether word `w` writes slot `(s, p)`.
pub open spec fn targets(w: u32, s: int, p: int) -> bool {
    unpacked(w).strip == s && unpacked(w).pixel == p
}

/// `n` is the effective length of a strip: its first `n` slots are assigned
/// and slot `n` is not, or `n` is the whole strip.
pub open spec fn is_effective_length(row: Seq<Option<Rgb>>, n: int) -> bool {
    &&& 0 <= n <= row.len()
    &&& forall|k: int| 0 <= k < n ==> (#[trigger] row[k]) is Some
    &&& n == row.len() || row[n] is None
}

/// The word that carries a color to the strip: green, red and blue in the
/// top three bytes, the low byte zero.
pub open spec fn grb(rgb: Rgb) -> u32 {
    (rgb.1 * 0x100_0000 + rgb.0 * 0x1_0000 + rgb.2 * 0x100) as u32
}

/// The words that a refresh sends to a strip: one per slot of its effective
/// length, in slot order.
pub open spec fn refresh_words(row: Seq<Option<Rgb>>, n: int) -> Seq<u32> {
    Seq::new(n as nat, |k: int| grb(row[k]->0))
}

proof fn lemma_grb_bits(r: u32, g: u32, b: u32)
    by (bit_vector)
    requires
        r < 256,
        g < 256,
        b < 256,
    ensures
        (g << 24) | (r << 16) | (b << 8) == g * 0x100_0000 + r * 0x1_0000 + b * 0x100,
{
}

/// Orders a color for the strip: green, red, blue in the top three bytes.
pub fn grb_word(rgb: Rgb) -> (w: u32)
    ensures
        w == grb(rgb),
{
    let (r, g, b) = rgb;
    proof {
        lemma_grb_bits(r as u32, g as u32, b as u32);
    }
    ((g as u32) << 24) | ((r as u32) << 16) | ((b as u32) << 8)
}

/// Applying words keeps the shape of the state.
pub proof fn lemma_with_words_shape(strips: Seq<Seq<Option<Rgb>>>, words: Seq<u32>)
    requires
        has_shape(strips),
    ensures
        has_shape(with_words(strips, words)),
    decreases words.len(),
{
    if words.len() > 0 {
        lemma_with_words_shape(strips, words.drop_last());
        let before = with_words(strips, words.drop_last());
        let after = with_word(before, words.last());
        assert forall|s: int| 0 <= s < STRIP_COUNT implies (#[trigger] after[s]).len()
            == STRIP_LEN by {
            assert(before[s].len() == STRIP_LEN);
        }
    }
}

/// Last write wins: after a run of words, a slot holds the color of the last
/// word that wrote it.
pub proof fn lemma_last_write_wins(strips: Seq<Seq<Option<Rgb>>>, words: Seq<u32>, i: int)
    requires
        has_shape(strips),
        0 <= i < words.len(),
        forall|j: int|
            i < j < words.len() ==> !targets(
                #[trigger] words[j],
                unpacked(words[i]).strip as int,
                unpacked(words[i]).pixel as int,
            ),
    ensures
        with_words(strips, words)[unpacked(words[i]).strip as int][unpacked(words[i]).pixel as int]
            == Some(unpacked(words[i]).rgb),
    decreases words.len(),
{
    let c = unpacked(words[i]);
    lemma_with_words_shape(strips, words.drop_last());
    if i < words.len() - 1 {
        let rest = words.drop_last();
        assert forall|j: int| i < j < rest.len() implies !targets(
            #[trigger] rest[j],
            c.strip as int,
            c.pixel as int,
        ) by {
            assert(rest[j] == words[j]);
        }
        lemma_last_write_wins(strips, rest, i);
        assert(!targets(words[words.len() - 1], c.strip as int, c.pixel as int));
    }
}

/// A slot that no word writes keeps its value.
pub proof fn lemma_untouched_slot(strips: Seq<Seq<Option<Rgb>>>, words: Seq<u32>, s: int, p: int)
    requires
        has_shape(strips),
        0 <= s < STRIP_COUNT,
        0 <= p < STRIP_LEN,
        forall|j: int| 0 <= j < words.len() ==> !targets(#[trigger] words[j], s, p),
    ensures
        with_words(strips, words)[s][p] == strips[s][p],
    decreases words.len(),
{
    if words.len() > 0 {
        let rest = words.drop_last();
        assert forall|j: int| 0 <= j < rest.len() implies !targets(#[trigger] rest[j], s, p) by {
            assert(rest[j] == words[j]);
        }
        lemma_with_words_shape(strips, rest);
        lemma_untouched_slot(strips, rest, s, p);
        assert(!targets(words[words.len() - 1], s, p));
    }
}

/// The pixel state of all strips, owned by the core that drives them.
pub struct Framebuffer {
    slots: Vec<Option<Rgb>>,
}

impl View for Framebuffer {
    type V = Seq<Seq<Option<Rgb>>>;

    /// `self@[s][p]` is slot `p` of strip `s`.
    closed spec fn view(&self) -> Seq<Seq<Option<Rgb>>> {
        Seq::new(
            STRIP_COUNT as nat,
            |s: int| Seq::new(STRIP_LEN as nat, |p: int| self.slots@[s * STRIP_LEN + p]),
        )
    }
}

impl Framebuffer {
    /// The slots are stored strip after strip.
    pub closed spec fn wf(&self) -> bool {
        self.slots@.len() == STRIP_COUNT * STRIP_LEN
    }

    /// The state always has four strips of 512 slots.
    pub proof fn lemma_shape(&self)
        ensures
            has_shape(self@),
    {
    }

    /// A framebuffer with every slot unassigned.
    pub fn new() -> (r: Framebuffer)
        ensures
            r.wf(),
            forall|s: int, p: int|
                0 <= s < STRIP_COUNT && 0 <= p < STRIP_LEN ==> (#[trigger] r@[s][p]) is None,
    {
        let mut slots: Vec<Option<Rgb>> = Vec::new();
        let mut i: usize = 0;
        while i < STRIP_COUNT * STRIP_LEN
            invariant
                i <= STRIP_COUNT * STRIP_LEN,
                slots@.len() == i,
                forall|k: int| 0 <= k < i ==> (#[trigger] slots@[k]) is None,
            decreases STRIP_COUNT * STRIP_LEN - i,
        {
            slots.push(None);
            i += 1;
        }
        let r = Framebuffer { slots };
        assert forall|s: int, p: int|
            0 <= s < STRIP_COUNT && 0 <= p < STRIP_LEN implies (#[trigger] r@[s][p]) is None by {
            assert(r.slots@[s * STRIP_LEN + p] is None);
        }
        r
    }

    /// The color of one slot.
    pub fn slot(&self, strip: usize, pixel: usize) -> (r: Option<Rgb>)
        requires
            self.wf(),
            strip < STRIP_COUNT,
            pixel < STRIP_LEN,
        ensures
            r == self@[strip as int][pixel as int],
    {
        self.slots[strip * STRIP_LEN + pixel]
    }

    /// Applies one packed word: its slot takes its color, whatever it held.
    pub fn apply(&mut self, word: u32)
        requires
            old(self).wf(),
        ensures
            final(self).wf(),
            final(self)@ == with_word(old(self)@, word),
    {
        let Command { strip, pixel, rgb } = Command::from_u32(word);
        let ghost before = self@;
        let index = strip * STRIP_LEN + pixel;
        self.slots.set(index, Some(rgb));
        let ghost expected = with_word(before, word);
        assert forall|s: int| 0 <= s < STRIP_COUNT implies #[trigger] self@[s] =~= expected[s] by {
            if s == strip {
                assert forall|p: int| 0 <= p < STRIP_LEN implies self@[s][p] == expected[s][p] by {
                    assert(p == pixel || s * STRIP_LEN + p != index);
                }
            } else {
                assert forall|p: int| 0 <= p < STRIP_LEN implies self@[s][p] == expected[s][p] by {
                    assert(s * STRIP_LEN + p != index);
                }
            }
        }
        assert(self@ =~= expected);
    }

    /// Applies packed words in order.
    pub fn apply_all(&mut self, words: &[u32])
        requires
            old(self).wf(),
        ensures
            final(self).wf(),
            final(self)@ == with_words(old(self)@, words@),
    {
        let mut i: usize = 0;
        while i < words.len()
            invariant
                i <= words@.len(),
                self.wf(),
                self@ == with_words(old(self)@, words@.take(i as int)),
            decreases words@.len() - i,
        {
            self.apply(words[i]);
            assert(words@.take(i as int + 1).drop_last() =~= words@.take(i as int));
            i += 1;
        }
        assert(words@.take(words@.len() as int) =~= words@);
    }

    /// One drain pass: reads up to `QUEUE_DEPTH` words from the queue, oldest
    /// first, and applies each in that order. Returns the words read.
    pub fn drain(&mut self, queue: &mut WordQueue) -> (drained: Vec<u32>)
        requires
            old(self).wf(),
        ensures
            final(self).wf(),
            drained@.len() == if old(queue)@.len() < QUEUE_DEPTH {
                old(queue)@.len()
            } else {
                QUEUE_DEPTH as nat
            },
            drained@ == old(queue)@.take(drained@.len() as int),
            final(queue)@ == old(queue)@.skip(drained@.len() as int),
            final(self)@ == with_words(old(self)@, drained@),
    {
        let mut drained: Vec<u32> = Vec::new();
        let mut n: usize = 0;
        while n < QUEUE_DEPTH
            invariant_except_break
                n <= QUEUE_DEPTH,
                drained@.len() == n,
                n <= old(queue)@.len(),
                drained@ == old(queue)@.take(n as int),
                queue@ == old(queue)@.skip(n as int),
                self.wf(),
                self@ == with_words(old(self)@, drained@),
            ensures
                drained@.len() == if old(queue)@.len() < QUEUE_DEPTH {
                    old(queue)@.len()
                } else {
                    QUEUE_DEPTH as nat
                },
                drained@ == old(queue)@.take(drained@.len() as int),
                queue@ == old(queue)@.skip(drained@.len() as int),
                self.wf(),
                self@ == with_words(old(self)@, drained@),
            decreases QUEUE_DEPTH - n,
        {
            match queue.read() {
                Some(w) => {
                    self.apply(w);
                    drained.push(w);
                    assert(drained@.drop_last() =~= old(queue)@.take(n as int));
                    assert(drained@ =~= old(queue)@.take(n as int + 1));
                    assert(queue@ =~= old(queue)@.skip(n as int + 1));
                    n += 1;
                },
                None => {
                    break;
                },
            }
        }
        drained
    }

    /// The words that a refresh sends to strip `strip`: the colors of its
    /// effective length, each ordered green, red, blue. The scan stops at the
    /// first unassigned slot; later slots are not sent.
    pub fn strip_words(&self, strip: usize) -> (words: Vec<u32>)
        requires
            self.wf(),
            strip < STRIP_COUNT,
        ensures
            is_effective_length(self@[strip as int], words@.len() as int),
            words@ == refresh_words(self@[strip as int], words@.len() as int),
    {
        let ghost row = self@[strip as int];
        let base = strip * STRIP_LEN;
        let mut words: Vec<u32> = Vec::new();
        let mut pixel: usize = 0;
        while pixel < STRIP_LEN && self.slots[base + pixel].is_some()
            invariant
                self.wf(),
                strip < STRIP_COUNT,
                base == strip * STRIP_LEN,
                row == self@[strip as int],
                pixel <= STRIP_LEN,
                words@.len() == pixel,
                forall|k: int| 0 <= k < pixel ==> (#[trigger] row[k]) is Some,
                words@ == refresh_words(row, pixel as int),
            decreases STRIP_LEN - pixel,
        {
            assert(row[pixel as int] == self.slots@[base + pixel]);
            let rgb = self.slots[base + pixel].unwrap();
            words.push(grb_word(rgb));
            pixel += 1;
            assert(words@ =~= refresh_words(row, pixel as int));
        }
        assert(pixel == STRIP_LEN || row[pixel as int] == self.slots@[base + pixel]);
        words
    }
}

} // verus!

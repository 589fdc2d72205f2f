//! Frame buffer for HUB75 panels whose row address is held in an external
//! latch.
//!
//! Two kinds of 8-bit word are streamed to the panel over the same eight
//! lines:
//!
//! ```text
//! Address word (row select and timing)
//! | 7  | 6   | 5 | 4 | 3 | 2 | 1 | 0 |
//! | OE | LAT |   | E | D | C | B | A |
//!
//! Entry word (colour bits of two sub-pixels)
//! | 7  | 6   | 5  | 4  | 3  | 2  | 1  | 0  |
//! | OE | LAT | B2 | G2 | R2 | B1 | G1 | R1 |
//! ```
//!
//! `OE` and `LAT` sit at the same positions in both, so the control lines
//! stay valid through the whole stream. While `LAT` is high the external
//! latch takes the row address and the pixel clock is gated off.
//!
//! A [`Row`] is one scan line: its entry words, one per column, followed by
//! four address words. A [`Frame`] holds the scan lines of one bit plane and
//! a [`DmaFrameBuffer`] the frames of one picture.
use vstd::arithmetic::power2::{lemma2_to64, lemma_pow2_pos, pow2};
use vstd::prelude::*;

use crate::graphics::{Color, Pixel, Point, Size};
use crate::{FrameBuffer, FrameBufferOperations, MutableFrameBuffer, WordSize};
use crate::bits::{
    bit, bit_range, get_bit, get_bit_range, lemma_bit_range_of_with_bit_range, lemma_same_bits,
    lemma_same_high_bits_and_low_field, lemma_with_bit, lemma_with_bit_keeps_bit_range,
    lemma_with_bit_range, lemma_zero_word, set_bit, set_bit_range,
};

verus! {

/// What an [`Address`] word carries, field by field.
pub struct AddressFields {
    /// Bit 7: output enable
    pub output_enable: bool,
    /// Bit 6: latch strobe
    pub latch: bool,
    /// Bit 5, which drives no signal
    pub spare: bool,
    /// Bits 4 to 0: the row address, below 32
    pub addr: u8,
}

impl AddressFields {
    /// The fields of the address word that `format` leaves at `position`
    /// among the four of a row: the row address, with the latch high but in
    /// the last of the four.
    pub open spec fn stamped(addr: u8, position: int) -> AddressFields {
        AddressFields { output_enable: false, latch: position != 3, spare: false, addr }
    }
}

/// 8-bit word with the row address and the timing signals.
#[derive(Debug, Clone, Copy, PartialEq, Eq, Structural)]
pub struct Address(pub u8);

impl View for Address {
    type V = AddressFields;

    open spec fn view(&self) -> AddressFields {
        AddressFields {
            output_enable: bit(self.0, 7),
            latch: bit(self.0, 6),
            spare: bit(self.0, 5),
            addr: bit_range(self.0, 4, 0),
        }
    }
}

impl Address {
    /// The word with every bit clear.
    pub fn new() -> (word: Self)
        ensures
            word.0 == 0,
    {
        Address(0)
    }

    /// The output-enable bit.
    pub fn output_enable(&self) -> (value: bool)
        ensures
            value == self@.output_enable,
    {
        get_bit(self.0, 7)
    }

    /// Sets the output-enable bit and leaves the other fields alone.
    pub fn set_output_enable(&mut self, value: bool)
        ensures
            final(self)@ == (AddressFields { output_enable: value, ..old(self)@ }),
    {
        proof {
            lemma_with_bit(self.0, 7, value);
            lemma_with_bit_keeps_bit_range(self.0, 7, value, 4, 0);
        }
        self.0 = set_bit(self.0, 7, value);
    }

    /// The latch bit.
    pub fn latch(&self) -> (value: bool)
        ensures
            value == self@.latch,
    {
        get_bit(self.0, 6)
    }

    /// Sets the latch bit and leaves the other fields alone.
    pub fn set_latch(&mut self, value: bool)
        ensures
            final(self)@ == (AddressFields { latch: value, ..old(self)@ }),
    {
        proof {
            lemma_with_bit(self.0, 6, value);
            lemma_with_bit_keeps_bit_range(self.0, 6, value, 4, 0);
        }
        self.0 = set_bit(self.0, 6, value);
    }

    /// The row address.
    pub fn addr(&self) -> (value: u8)
        ensures
            value == self@.addr,
    {
        get_bit_range(self.0, 4, 0)
    }

    /// Sets the row address to the five lowest bits of `value` and leaves
    /// the other fields alone.
    pub fn set_addr(&mut self, value: u8)
        ensures
            final(self)@ == (AddressFields { addr: bit_range(value, 4, 0), ..old(self)@ }),
    {
        proof {
            lemma_with_bit_range(self.0, 4, 0, value);
            lemma_bit_range_of_with_bit_range(self.0, 4, 0, value);
        }
        self.0 = set_bit_range(self.0, 4, 0, value);
    }

    /// Two address words with the same fields are the same word.
    pub proof fn lemma_view_determines(a: Address, b: Address)
        requires
            a@ == b@,
        ensures
            a == b,
    {
        lemma_same_high_bits_and_low_field(a.0, b.0);
    }
}

impl Default for Address {
    fn default() -> (word: Self)
        ensures
            word.0 == 0,
    {
        Self::new()
    }
}

/// What an [`Entry`] word carries, field by field.
pub struct EntryFields {
    /// Bit 7: output enable
    pub output_enable: bool,
    /// Bit 6: latch strobe
    pub latch: bool,
    /// Bit 5: blue of the second sub-pixel
    pub blu2: bool,
    /// Bit 4: green of the second sub-pixel
    pub grn2: bool,
    /// Bit 3: red of the second sub-pixel
    pub red2: bool,
    /// Bit 2: blue of the first sub-pixel
    pub blu1: bool,
    /// Bit 1: green of the first sub-pixel
    pub grn1: bool,
    /// Bit 0: red of the first sub-pixel
    pub red1: bool,
}

impl EntryFields {
    /// The same control bits with all six colour bits off.
    pub open spec fn dark(self) -> EntryFields {
        EntryFields {
            blu2: false,
            grn2: false,
            red2: false,
            blu1: false,
            grn1: false,
            red1: false,
            ..self
        }
    }

    /// Whether all six colour bits are off.
    pub open spec fn is_dark(self) -> bool {
        self == self.dark()
    }

    /// The fields with the colour of one sub-pixel replaced: that of the
    /// second sub-pixel if `lower_half`, else that of the first.
    pub open spec fn with_color(self, lower_half: bool, red: bool, green: bool, blue: bool)
        -> EntryFields {
        if lower_half {
            EntryFields { red2: red, grn2: green, blu2: blue, ..self }
        } else {
            EntryFields { red1: red, grn1: green, blu1: blue, ..self }
        }
    }

    /// The colour of one sub-pixel as (red, green, blue): that of the second
    /// sub-pixel if `lower_half`, else that of the first.
    pub open spec fn color(self, lower_half: bool) -> (bool, bool, bool) {
        if lower_half {
            (self.red2, self.grn2, self.blu2)
        } else {
            (self.red1, self.grn1, self.blu1)
        }
    }

    /// The fields of the entry word that `format` leaves at a column:
    /// output enabled but at the last column of the row, latch and colours
    /// off.
    pub open spec fn blank(last_column: bool) -> EntryFields {
        EntryFields {
            output_enable: !last_column,
            latch: false,
            blu2: false,
            grn2: false,
            red2: false,
            blu1: false,
            grn1: false,
            red1: false,
        }
    }
}

/// 8-bit word with the colour bits of two sub-pixels, one in the upper and
/// one in the lower half of the panel, and the shadow control bits.
#[derive(Debug, Clone, Copy, PartialEq, Eq, Structural)]
pub struct Entry(pub u8);

impl View for Entry {
    type V = EntryFields;

    open spec fn view(&self) -> EntryFields {
        EntryFields {
            output_enable: bit(self.0, 7),
            latch: bit(self.0, 6),
            blu2: bit(self.0, 5),
            grn2: bit(self.0, 4),
            red2: bit(self.0, 3),
            blu1: bit(self.0, 2),
            grn1: bit(self.0, 1),
            red1: bit(self.0, 0),
        }
    }
}

impl Entry {
    /// The word with every bit clear.
    pub fn new() -> (word: Self)
        ensures
            word.0 == 0,
    {
        Entry(0)
    }

    /// The output-enable bit.
    pub fn output_enable(&self) -> (value: bool)
        ensures
            value == self@.output_enable,
    {
        get_bit(self.0, 7)
    }

    /// Sets the output-enable bit and leaves the other fields alone.
    pub fn set_output_enable(&mut self, value: bool)
        ensures
            final(self)@ == (EntryFields { output_enable: value, ..old(self)@ }),
    {
        proof {
            lemma_with_bit(self.0, 7, value);
        }
        self.0 = set_bit(self.0, 7, value);
    }

    /// The latch bit.
    pub fn latch(&self) -> (value: bool)
        ensures
            value == self@.latch,
    {
        get_bit(self.0, 6)
    }

    /// Sets the latch bit and leaves the other fields alone.
    pub fn set_latch(&mut self, value: bool)
        ensures
            final(self)@ == (EntryFields { latch: value, ..old(self)@ }),
    {
        proof {
            lemma_with_bit(self.0, 6, value);
        }
        self.0 = set_bit(self.0, 6, value);
    }

    /// The blue bit of the second sub-pixel.
    pub fn blu2(&self) -> (value: bool)
        ensures
            value == self@.blu2,
    {
        get_bit(self.0, 5)
    }

    /// Sets the blue bit of the second sub-pixel and leaves the other fields alone.
    pub fn set_blu2(&mut self, value: bool)
        ensures
            final(self)@ == (EntryFields { blu2: value, ..old(self)@ }),
    {
        proof {
            lemma_with_bit(self.0, 5, value);
        }
        self.0 = set_bit(self.0, 5, value);
    }

    /// The green bit of the second sub-pixel.
    pub fn grn2(&self) -> (value: bool)
        ensures
            value == self@.grn2,
    {
        get_bit(self.0, 4)
    }

    /// Sets the green bit of the second sub-pixel and leaves the other fields alone.
    pub fn set_grn2(&mut self, value: bool)
        ensures
            final(self)@ == (EntryFields { grn2: value, ..old(self)@ }),
    {
        proof {
            lemma_with_bit(self.0, 4, value);
        }
        self.0 = set_bit(self.0, 4, value);
    }

    /// The red bit of the second sub-pixel.
    pub fn red2(&self) -> (value: bool)
        ensures
            value == self@.red2,
    {
        get_bit(self.0, 3)
    }

    /// Sets the red bit of the second sub-pixel and leaves the other fields alone.
    pub fn set_red2(&mut self, value: bool)
        ensures
            final(self)@ == (EntryFields { red2: value, ..old(self)@ }),
    {
        proof {
            lemma_with_bit(self.0, 3, value);
        }
        self.0 = set_bit(self.0, 3, value);
    }

    /// The blue bit of the first sub-pixel.
    pub fn blu1(&self) -> (value: bool)
        ensures
            value == self@.blu1,
    {
        get_bit(self.0, 2)
    }

    /// Sets the blue bit of the first sub-pixel and leaves the other fields alone.
    pub fn set_blu1(&mut self, value: bool)
        ensures
            final(self)@ == (EntryFields { blu1: value, ..old(self)@ }),
    {
        proof {
            lemma_with_bit(self.0, 2, value);
        }
        self.0 = set_bit(self.0, 2, value);
    }

    /// The green bit of the first sub-pixel.
    pub fn grn1(&self) -> (value: bool)
        ensures
            value == self@.grn1,
    {
        get_bit(self.0, 1)
    }

    /// Sets the green bit of the first sub-pixel and leaves the other fields alone.
    pub fn set_grn1(&mut self, value: bool)
        ensures
            final(self)@ == (EntryFields { grn1: value, ..old(self)@ }),
    {
        proof {
            lemma_with_bit(self.0, 1, value);
        }
        self.0 = set_bit(self.0, 1, value);
    }

    /// The red bit of the first sub-pixel.
    pub fn red1(&self) -> (value: bool)
        ensures
            value == self@.red1,
    {
        get_bit(self.0, 0)
    }

    /// Sets the red bit of the first sub-pixel and leaves the other fields alone.
    pub fn set_red1(&mut self, value: bool)
        ensures
            final(self)@ == (EntryFields { red1: value, ..old(self)@ }),
    {
        proof {
            lemma_with_bit(self.0, 0, value);
        }
        self.0 = set_bit(self.0, 0, value);
    }

    /// Replaces the three colour bits of the first sub-pixel by the three
    /// lowest bits of `bits`: red is bit 0, green bit 1 and blue bit 2.
    pub fn set_color0_bits(&mut self, bits: u8)
        ensures
            final(self)@ == (EntryFields {
                red1: bit(bits, 0),
                grn1: bit(bits, 1),
                blu1: bit(bits, 2),
                ..old(self)@
            }),
    {
        proof {
            lemma_with_bit_range(self.0, 2, 0, bits);
        }
        self.0 = set_bit_range(self.0, 2, 0, bits);
    }

    /// Replaces the three colour bits of the second sub-pixel by the three
    /// lowest bits of `bits`: red is bit 0, green bit 1 and blue bit 2.
    pub fn set_color1_bits(&mut self, bits: u8)
        ensures
            final(self)@ == (EntryFields {
                red2: bit(bits, 0),
                grn2: bit(bits, 1),
                blu2: bit(bits, 2),
                ..old(self)@
            }),
    {
        proof {
            lemma_with_bit_range(self.0, 5, 3, bits);
        }
        self.0 = set_bit_range(self.0, 5, 3, bits);
    }

    /// Two entry words with the same fields are the same word.
    pub proof fn lemma_view_determines(a: Entry, b: Entry)
        requires
            a@ == b@,
        ensures
            a == b,
    {
        lemma_same_bits(a.0, b.0);
    }
}

impl Default for Entry {
    fn default() -> (word: Self)
        ensures
            word.0 == 0,
    {
        Self::new()
    }
}

/// Where the word at position `index` of a row's stream is kept in memory.
///
/// The I2S peripheral of the first-generation ESP32 sends the bytes of each
/// group of four in the order 2, 3, 0, 1. With `esp32_ordering` the words
/// are stored so that they leave in their natural order; without it they are
/// stored as they are sent.
pub open spec fn spec_map_index(esp32_ordering: bool, index: usize) -> usize {
    if esp32_ordering {
        index ^ 2
    } else {
        index
    }
}

/// Whether a run of `len` words can be stored in the chosen order: the
/// swapped order needs whole groups of four.
pub open spec fn order_fits(esp32_ordering: bool, len: usize) -> bool {
    esp32_ordering ==> len % 4 == 0
}

/// Gives the place in memory of the word at position `index` of a row's
/// stream.
pub fn map_index<const ESP32_ORDERING: bool>(index: usize) -> (mapped: usize)
    ensures
        mapped == spec_map_index(ESP32_ORDERING, index),
{
    if ESP32_ORDERING {
        index ^ 2
    } else {
        index
    }
}

/// Mapping an index twice gives the index back, and a mapped index stays in
/// its group of four.
pub proof fn lemma_map_index_involution(esp32_ordering: bool, index: usize)
    ensures
        spec_map_index(esp32_ordering, spec_map_index(esp32_ordering, index)) == index,
        spec_map_index(esp32_ordering, index) / 4 == index / 4,
{
    assert((index ^ 2) ^ 2 == index && (index ^ 2) / 4 == index / 4) by (bit_vector);
}

/// Within a run of words that fits the order, every position has its place
/// in the run.
pub proof fn lemma_map_index_in_range(esp32_ordering: bool, index: usize, len: usize)
    requires
        index < len,
        order_fits(esp32_ordering, len),
    ensures
        spec_map_index(esp32_ordering, index) < len,
{
    lemma_map_index_involution(esp32_ordering, index);
}

/// The place in memory of the word at position `position`, as an index into
/// the row's array.
pub open spec fn slot(esp32_ordering: bool, position: int) -> int {
    spec_map_index(esp32_ordering, position as usize) as int
}

/// The four address words that follow the entry words of the scan line with
/// row address `addr`, each at its place in memory.
///
/// The first three carry the address with the latch high; the last drops the
/// latch, which tells the panel that the address is stable.
pub fn address_words<const ESP32_ORDERING: bool>(addr: u8) -> (words: [Address; 4])
    requires
        addr < 32,
    ensures
        forall|position: int|
            0 <= position < 4 ==> (#[trigger] words[slot(ESP32_ORDERING, position)])@
                == AddressFields::stamped(addr, position),
{
    let zero = Address::new();
    let mut words: [Address; 4] = [zero;4];
    let mut i: usize = 0;
    while i < 4
        invariant
            i <= 4,
            addr < 32,
            forall|position: int|
                0 <= position < i ==> (#[trigger] words[slot(ESP32_ORDERING, position)])@
                    == AddressFields::stamped(addr, position),
        decreases 4 - i,
    {
        let latch_bit: u8 = if i != 3 {
            0x40
        } else {
            0
        };
        let mapped = map_index::<ESP32_ORDERING>(i);
        let word: u8 = latch_bit | addr;
        let ghost before = words;
        proof {
            lemma_map_index_in_range(ESP32_ORDERING, i, 4);
            assert(!bit(word, 7) && bit(word, 6) == (latch_bit == 0x40) && !bit(word, 5)
                && bit_range(word, 4, 0) == addr) by (bit_vector)
                requires
                    word == latch_bit | addr,
                    addr < 32,
                    latch_bit == 0x40 || latch_bit == 0,
            ;
        }
        words[mapped] = Address(word);
        proof {
            assert forall|position: int| 0 <= position < i + 1 implies (#[trigger] words[slot(
                ESP32_ORDERING,
                position,
            )])@ == AddressFields::stamped(addr, position) by {
                lemma_map_index_involution(ESP32_ORDERING, position as usize);
                lemma_map_index_involution(ESP32_ORDERING, i);
                lemma_map_index_in_range(ESP32_ORDERING, position as usize, 4);
                if position != i {
                    assert(words[slot(ESP32_ORDERING, position)] == before[slot(
                        ESP32_ORDERING,
                        position,
                    )]);
                }
            }
        }
        i += 1;
    }
    words
}

/// The address words of all 32 row addresses: entry `addr` of the table is
/// [`address_words`] of `addr`.
pub fn make_addr_table<const ESP32_ORDERING: bool>() -> (table: [[Address; 4]; 32])
    ensures
        forall|addr: int, position: int|
            0 <= addr < 32 && 0 <= position < 4 ==> (#[trigger] table[addr][slot(
                ESP32_ORDERING,
                position,
            )])@ == AddressFields::stamped(addr as u8, position),
{
    let zero = Address::new();
    let mut table: [[Address; 4]; 32] = [[zero;4];32];
    let mut addr: usize = 0;
    while addr < 32
        invariant
            addr <= 32,
            forall|done: int, position: int|
                0 <= done < addr && 0 <= position < 4 ==> (#[trigger] table[done][slot(
                    ESP32_ORDERING,
                    position,
                )])@ == AddressFields::stamped(done as u8, position),
        decreases 32 - addr,
    {
        table[addr] = address_words::<ESP32_ORDERING>(addr as u8);
        addr += 1;
    }
    table
}

/// The entry words of a freshly formatted row of `COLS` columns, each at its
/// place in memory: output enabled, but at the last column, which blanks the
/// panel for one clock at the row boundary.
pub fn make_data_template<const COLS: usize, const ESP32_ORDERING: bool>() -> (data: [Entry; COLS])
    requires
        order_fits(ESP32_ORDERING, COLS),
    ensures
        forall|col: int|
            0 <= col < COLS ==> (#[trigger] data[slot(ESP32_ORDERING, col)])@ == EntryFields::blank(
                col == COLS - 1,
            ),
{
    let zero = Entry::new();
    let mut data: [Entry; COLS] = [zero;COLS];
    let mut i: usize = 0;
    while i < COLS
        invariant
            i <= COLS,
            order_fits(ESP32_ORDERING, COLS),
            forall|col: int|
                0 <= col < i ==> (#[trigger] data[slot(ESP32_ORDERING, col)])@
                    == EntryFields::blank(col == COLS - 1),
        decreases COLS - i,
    {
        let mapped = map_index::<ESP32_ORDERING>(i);
        let word: u8 = if i == COLS - 1 {
            0
        } else {
            0x80
        };
        let ghost before = data;
        proof {
            lemma_map_index_in_range(ESP32_ORDERING, i, COLS);
            lemma_zero_word();
            assert(bit(0x80, 7) && !bit(0x80, 6) && !bit(0x80, 5) && !bit(0x80, 4) && !bit(0x80, 3)
                && !bit(0x80, 2) && !bit(0x80, 1) && !bit(0x80, 0)) by (bit_vector);
        }
        data[mapped] = Entry(word);
        proof {
            assert forall|col: int| 0 <= col < i + 1 implies (#[trigger] data[slot(
                ESP32_ORDERING,
                col,
            )])@ == EntryFields::blank(col == COLS - 1) by {
                lemma_map_index_involution(ESP32_ORDERING, col as usize);
                lemma_map_index_involution(ESP32_ORDERING, i);
                lemma_map_index_in_range(ESP32_ORDERING, col as usize, COLS);
                if col != i {
                    assert(data[slot(ESP32_ORDERING, col)] == before[slot(ESP32_ORDERING, col)]);
                }
            }
        }
        i += 1;
    }
    data
}

/// One scan line: an entry word for each of `COLS` columns, then four
/// address words. With `ESP32_ORDERING` the words are kept in the byte order
/// of the first-generation ESP32's I2S peripheral (see [`spec_map_index`]).
#[derive(Debug, Clone, Copy, PartialEq)]
pub struct Row<const COLS: usize, const ESP32_ORDERING: bool> {
    /// The entry words, each at its place in memory
    pub data: [Entry; COLS],
    /// The address words, each at its place in memory
    pub address: [Address; 4],
}

impl<const COLS: usize, const ESP32_ORDERING: bool> Row<COLS, ESP32_ORDERING> {
    /// Every word is zero.
    pub open spec fn zeroed(&self) -> bool {
        &&& forall|i: int| 0 <= i < COLS ==> (#[trigger] self.data[i]).0 == 0
        &&& forall|i: int| 0 <= i < 4 ==> (#[trigger] self.address[i]).0 == 0
    }

    /// The control bits are those of the scan line with row address `addr`:
    /// the four address words carry `addr`, all but the last of them with
    /// the latch high, and every entry word has the latch low and the output
    /// enabled, but the one of the last column. The columns fit the byte
    /// order, so that every word has its place.
    pub open spec fn stamped(&self, addr: u8) -> bool {
        &&& order_fits(ESP32_ORDERING, COLS)
        &&& forall|position: int|
            0 <= position < 4 ==> (#[trigger] self.address[slot(ESP32_ORDERING, position)])@
                == AddressFields::stamped(addr, position)
        &&& forall|col: int|
            0 <= col < COLS ==> (#[trigger] self.data[slot(ESP32_ORDERING, col)])@.dark()
                == EntryFields::blank(col == COLS - 1)
    }

    /// Every colour bit of the row is off.
    pub open spec fn dark(&self) -> bool {
        forall|i: int| 0 <= i < COLS ==> (#[trigger] self.data[i])@.is_dark()
    }

    /// This row is `before` with every colour bit turned off: the address
    /// words and the control bits of the entry words are the same.
    pub open spec fn cleared_from(&self, before: Self) -> bool {
        &&& self.address == before.address
        &&& forall|i: int| 0 <= i < COLS ==> (#[trigger] self.data[i])@ == before.data[i]@.dark()
    }

    /// This row is `before` with the colour of one sub-pixel of column `col`
    /// replaced, and nothing else changed.
    pub open spec fn colored_from(
        &self,
        before: Self,
        lower_half: bool,
        col: int,
        red: bool,
        green: bool,
        blue: bool,
    ) -> bool {
        &&& self.address == before.address
        &&& forall|i: int|
            0 <= i < COLS && i != slot(ESP32_ORDERING, col) ==> #[trigger] self.data[i]
                == before.data[i]
        &&& self.data[slot(ESP32_ORDERING, col)]@ == before.data[slot(ESP32_ORDERING, col)]@.with_color(
            lower_half,
            red,
            green,
            blue,
        )
    }

    /// The bytes of the row in memory order: the entry words, then the
    /// address words.
    pub open spec fn memory_image(&self) -> Seq<u8> {
        Seq::new(COLS as nat, |i: int| self.data[i].0) + Seq::new(4, |i: int| self.address[i].0)
    }

    /// Exactly one of the four address words has the latch low.
    pub open spec fn one_unlatched(&self) -> bool {
        exists|k: int|
            0 <= k < 4 && !(#[trigger] self.address[k])@.latch && forall|j: int|
                0 <= j < 4 && j != k ==> (#[trigger] self.address[j])@.latch
    }

    /// Exactly one of the entry words has the output disabled.
    pub open spec fn one_blanked(&self) -> bool {
        exists|k: int|
            0 <= k < COLS && !(#[trigger] self.data[k])@.output_enable && forall|j: int|
                0 <= j < COLS && j != k ==> (#[trigger] self.data[j])@.output_enable
    }

    /// In a stamped row every address word carries the row address, exactly
    /// one of them has the latch low, every entry word has the latch low
    /// and exactly one of them, if there is any, has the output disabled.
    pub proof fn lemma_stamped_words(row: Self, addr: u8)
        requires
            row.stamped(addr),
        ensures
            forall|i: int| 0 <= i < 4 ==> (#[trigger] row.address[i])@.addr == addr,
            row.one_unlatched(),
            forall|i: int| 0 <= i < COLS ==> !(#[trigger] row.data[i])@.latch,
            COLS > 0 ==> row.one_blanked(),
    {
        assert forall|i: int| 0 <= i < 4 implies (#[trigger] row.address[i])@
            == AddressFields::stamped(addr, slot(ESP32_ORDERING, i)) by {
            lemma_map_index_involution(ESP32_ORDERING, i as usize);
            lemma_map_index_in_range(ESP32_ORDERING, i as usize, 4);
            assert(row.address[slot(ESP32_ORDERING, slot(ESP32_ORDERING, i))] == row.address[i]);
        }
        lemma_map_index_involution(ESP32_ORDERING, 3);
        lemma_map_index_in_range(ESP32_ORDERING, 3, 4);
        let unlatched = slot(ESP32_ORDERING, 3);
        assert(!row.address[unlatched]@.latch);
        assert forall|j: int| 0 <= j < 4 && j != unlatched implies (#[trigger] row.address[j])@.latch by {
            lemma_map_index_involution(ESP32_ORDERING, j as usize);
        }
        assert forall|i: int| 0 <= i < COLS implies (#[trigger] row.data[i])@.dark()
            == EntryFields::blank(slot(ESP32_ORDERING, i) == COLS - 1) by {
            lemma_map_index_involution(ESP32_ORDERING, i as usize);
            lemma_map_index_in_range(ESP32_ORDERING, i as usize, COLS);
            assert(row.data[slot(ESP32_ORDERING, slot(ESP32_ORDERING, i))] == row.data[i]);
        }
        if COLS > 0 {
            let last = (COLS - 1) as usize;
            lemma_map_index_involution(ESP32_ORDERING, last);
            lemma_map_index_in_range(ESP32_ORDERING, last, COLS);
            let blanked = slot(ESP32_ORDERING, last as int);
            assert(!row.data[blanked]@.output_enable);
            assert forall|j: int| 0 <= j < COLS && j != blanked implies (#[trigger] row.data[j])@.output_enable by {
                lemma_map_index_involution(ESP32_ORDERING, j as usize);
            }
        }
    }

    /// A row that is stamped and dark is known word for word.
    pub proof fn lemma_formatted_unique(a: Self, b: Self, addr: u8)
        requires
            a.stamped(addr) && a.dark(),
            b.stamped(addr) && b.dark(),
        ensures
            a == b,
    {
        assert forall|i: int| 0 <= i < 4 implies a.address[i] == b.address[i] by {
            lemma_map_index_involution(ESP32_ORDERING, i as usize);
            lemma_map_index_in_range(ESP32_ORDERING, i as usize, 4);
            let position = slot(ESP32_ORDERING, i);
            assert(a.address[slot(ESP32_ORDERING, position)] == a.address[i]);
            assert(b.address[slot(ESP32_ORDERING, position)] == b.address[i]);
            Address::lemma_view_determines(a.address[i], b.address[i]);
        }
        assert forall|i: int| 0 <= i < COLS implies a.data[i] == b.data[i] by {
            lemma_map_index_involution(ESP32_ORDERING, i as usize);
            lemma_map_index_in_range(ESP32_ORDERING, i as usize, COLS);
            let col = slot(ESP32_ORDERING, i);
            assert(a.data[slot(ESP32_ORDERING, col)] == a.data[i]);
            assert(b.data[slot(ESP32_ORDERING, col)] == b.data[i]);
            Entry::lemma_view_determines(a.data[i], b.data[i]);
        }
        assert(a.address =~= b.address);
        assert(a.data =~= b.data);
    }

    /// Clearing the colours of a row twice leaves what clearing them once
    /// leaves.
    pub proof fn lemma_clear_idempotent(before: Self, once: Self, twice: Self)
        requires
            once.cleared_from(before),
            twice.cleared_from(once),
        ensures
            twice == once,
    {
        assert forall|i: int| 0 <= i < COLS implies twice.data[i] == once.data[i] by {
            Entry::lemma_view_determines(twice.data[i], once.data[i]);
        }
        assert(twice.data =~= once.data);
    }

    /// Clearing the colours of a dark row changes nothing.
    pub proof fn lemma_clear_of_dark(before: Self, after: Self)
        requires
            before.dark(),
            after.cleared_from(before),
        ensures
            after == before,
    {
        assert forall|i: int| 0 <= i < COLS implies after.data[i] == before.data[i] by {
            Entry::lemma_view_determines(after.data[i], before.data[i]);
        }
        assert(after.data =~= before.data);
    }

    /// Clearing the colours leaves a dark row and keeps the stamp.
    pub proof fn lemma_cleared(before: Self, after: Self, addr: u8)
        requires
            after.cleared_from(before),
        ensures
            after.dark(),
            before.stamped(addr) ==> after.stamped(addr),
    {
        if before.stamped(addr) {
            assert forall|col: int| 0 <= col < COLS implies (#[trigger] after.data[slot(
                ESP32_ORDERING,
                col,
            )])@.dark() == EntryFields::blank(col == COLS - 1) by {
                let i = slot(ESP32_ORDERING, col);
                lemma_map_index_in_range(ESP32_ORDERING, col as usize, COLS);
                assert(after.data[i]@ == before.data[i]@.dark());
            }
        }
    }

    /// Setting a colour keeps the stamp.
    pub proof fn lemma_colored_keeps_stamp(
        before: Self,
        after: Self,
        addr: u8,
        lower_half: bool,
        col: int,
        red: bool,
        green: bool,
        blue: bool,
    )
        requires
            after.colored_from(before, lower_half, col, red, green, blue),
            before.stamped(addr),
        ensures
            after.stamped(addr),
    {
        assert forall|c: int| 0 <= c < COLS implies (#[trigger] after.data[slot(
            ESP32_ORDERING,
            c,
        )])@.dark() == EntryFields::blank(c == COLS - 1) by {
            let i = slot(ESP32_ORDERING, c);
            lemma_map_index_in_range(ESP32_ORDERING, c as usize, COLS);
            if i != slot(ESP32_ORDERING, col) {
                assert(after.data[i] == before.data[i]);
            }
        }
    }

    /// A row of zero words.
    pub fn new() -> (row: Self)
        ensures
            row.zeroed(),
    {
        let entry = Entry::new();
        let address = Address::new();
        Self { address: [address;4], data: [entry;COLS] }
    }

    /// Makes this the scan line with row address `addr`, with all colours
    /// off.
    pub fn format(&mut self, addr: u8)
        requires
            addr < 32,
            order_fits(ESP32_ORDERING, COLS),
        ensures
            final(self).stamped(addr),
            final(self).dark(),
    {
        self.address = address_words::<ESP32_ORDERING>(addr);
        self.data = make_data_template::<COLS, ESP32_ORDERING>();
        proof {
            assert forall|i: int| 0 <= i < COLS implies (#[trigger] self.data[i])@.is_dark() by {
                lemma_map_index_involution(ESP32_ORDERING, i as usize);
                lemma_map_index_in_range(ESP32_ORDERING, i as usize, COLS);
                let col = slot(ESP32_ORDERING, i);
                assert(self.data[slot(ESP32_ORDERING, col)] == self.data[i]);
            }
        }
    }

    /// Turns every colour bit off and leaves the control bits and the
    /// address words as they are.
    pub fn clear_colors(&mut self)
        ensures
            final(self).cleared_from(*old(self)),
    {
        let mut i: usize = 0;
        while i < COLS
            invariant
                i <= COLS,
                self.address == old(self).address,
                forall|j: int| 0 <= j < i ==> (#[trigger] self.data[j])@ == old(self).data[j]@.dark(),
                forall|j: int| i <= j < COLS ==> #[trigger] self.data[j] == old(self).data[j],
            decreases COLS - i,
        {
            proof {
                lemma_with_bit_range(self.data[i as int].0, 5, 0, 0);
                lemma_zero_word();
            }
            self.data[i].0 = set_bit_range(self.data[i].0, 5, 0, 0);
            i += 1;
        }
    }

    /// Appends the bytes of the row, in memory order, to `bytes`.
    pub fn write_to(&self, bytes: &mut Vec<u8>)
        ensures
            final(bytes)@ == old(bytes)@ + self.memory_image(),
    {
        let mut i: usize = 0;
        while i < COLS
            invariant
                i <= COLS,
                bytes@ == old(bytes)@ + Seq::new(i as nat, |k: int| self.data[k].0),
            decreases COLS - i,
        {
            bytes.push(self.data[i].0);
            i += 1;
        }
        let ghost entries = bytes@;
        let mut j: usize = 0;
        while j < 4
            invariant
                j <= 4,
                entries == old(bytes)@ + Seq::new(COLS as nat, |k: int| self.data[k].0),
                bytes@ == entries + Seq::new(j as nat, |k: int| self.address[k].0),
            decreases 4 - j,
        {
            bytes.push(self.address[j].0);
            j += 1;
        }
    }

    /// Sets the colour of the first sub-pixel of column `col`.
    pub fn set_color0(&mut self, col: usize, r: bool, g: bool, b: bool)
        requires
            spec_map_index(ESP32_ORDERING, col) < COLS,
        ensures
            final(self).colored_from(*old(self), false, col as int, r, g, b),
    {
        let bits = color_bits(r, g, b);
        let col = map_index::<ESP32_ORDERING>(col);
        self.data[col].set_color0_bits(bits);
    }

    /// Sets the colour of the second sub-pixel of column `col`.
    pub fn set_color1(&mut self, col: usize, r: bool, g: bool, b: bool)
        requires
            spec_map_index(ESP32_ORDERING, col) < COLS,
        ensures
            final(self).colored_from(*old(self), true, col as int, r, g, b),
    {
        let bits = color_bits(r, g, b);
        let col = map_index::<ESP32_ORDERING>(col);
        self.data[col].set_color1_bits(bits);
    }
}

/// Packs a colour into three bits: red is bit 0, green bit 1 and blue bit 2.
pub fn color_bits(r: bool, g: bool, b: bool) -> (bits: u8)
    ensures
        bits < 8,
        bit(bits, 0) == r,
        bit(bits, 1) == g,
        bit(bits, 2) == b,
{
    let red: u8 = if r {
        1
    } else {
        0
    };
    let green: u8 = if g {
        1
    } else {
        0
    };
    let blue: u8 = if b {
        1
    } else {
        0
    };
    let bits: u8 = (blue << 2) | (green << 1) | red;
    assert(bits < 8 && bit(bits, 0) == (red == 1) && bit(bits, 1) == (green == 1) && bit(bits, 2) == (
    blue == 1)) by (bit_vector)
        requires
            bits == (blue << 2) | (green << 1) | red,
            red <= 1,
            green <= 1,
            blue <= 1,
    ;
    bits
}

impl<const COLS: usize, const ESP32_ORDERING: bool> Default for Row<COLS, ESP32_ORDERING> {
    fn default() -> (row: Self)
        ensures
            row.zeroed(),
    {
        Self::new()
    }
}

/// One bit plane of the picture: the `NROWS` scan lines of a panel with
/// `ROWS` rows and `COLS` columns. Scan line `r` carries row `r` of the
/// panel in the first sub-pixel of its entry words and row `r + NROWS` in
/// the second.
#[derive(Debug, Clone, Copy)]
pub struct Frame<
    const ROWS: usize,
    const COLS: usize,
    const NROWS: usize,
    const ESP32_ORDERING: bool,
> {
    /// The scan lines, by row address
    pub rows: [Row<COLS, ESP32_ORDERING>; NROWS],
}

impl<
    const ROWS: usize,
    const COLS: usize,
    const NROWS: usize,
    const ESP32_ORDERING: bool,
> Frame<ROWS, COLS, NROWS, ESP32_ORDERING> {
    /// The scan line that carries row `y` of the panel.
    pub open spec fn scan_line(y: int) -> int {
        if y < NROWS {
            y
        } else {
            y - NROWS
        }
    }

    /// Every word is zero.
    pub open spec fn zeroed(&self) -> bool {
        forall|r: int| 0 <= r < NROWS ==> (#[trigger] self.rows[r]).zeroed()
    }

    /// Every scan line has the control bits of its row address (see
    /// [`Row::stamped`]), and the row addresses fit in five bits.
    pub open spec fn stamped(&self) -> bool {
        &&& NROWS <= 32
        &&& forall|r: int| 0 <= r < NROWS ==> (#[trigger] self.rows[r]).stamped(r as u8)
    }

    /// Every colour bit of the frame is off.
    pub open spec fn dark(&self) -> bool {
        forall|r: int| 0 <= r < NROWS ==> (#[trigger] self.rows[r]).dark()
    }

    /// This frame is `before` with every colour bit turned off and nothing
    /// else changed.
    pub open spec fn cleared_from(&self, before: Self) -> bool {
        forall|r: int| 0 <= r < NROWS ==> (#[trigger] self.rows[r]).cleared_from(before.rows[r])
    }

    /// This frame is `before` with the colour of the pixel in row `y` and
    /// column `x` replaced, and nothing else changed.
    pub open spec fn colored_from(
        &self,
        before: Self,
        y: int,
        x: int,
        red: bool,
        green: bool,
        blue: bool,
    ) -> bool {
        &&& forall|r: int|
            0 <= r < NROWS && r != Self::scan_line(y) ==> #[trigger] self.rows[r] == before.rows[r]
        &&& self.rows[Self::scan_line(y)].colored_from(
            before.rows[Self::scan_line(y)],
            y >= NROWS,
            x,
            red,
            green,
            blue,
        )
    }

    /// The colour bits of the pixel in row `y` and column `x`, as (red,
    /// green, blue).
    pub open spec fn pixel(&self, y: int, x: int) -> (bool, bool, bool) {
        self.rows[Self::scan_line(y)].data[slot(ESP32_ORDERING, x)]@.color(y >= NROWS)
    }

    /// The bytes of the first `count` scan lines in memory order.
    pub open spec fn memory_image_of(&self, count: int) -> Seq<u8>
        decreases count,
    {
        if count <= 0 {
            Seq::empty()
        } else {
            self.memory_image_of(count - 1) + self.rows[count - 1].memory_image()
        }
    }

    /// The bytes of the frame in memory order: those of its scan lines, one
    /// after the other.
    pub open spec fn memory_image(&self) -> Seq<u8> {
        self.memory_image_of(NROWS as int)
    }

    /// A frame that is stamped and dark is known word for word.
    pub proof fn lemma_formatted_unique(a: Self, b: Self)
        requires
            a.stamped() && a.dark(),
            b.stamped() && b.dark(),
        ensures
            a == b,
    {
        assert forall|r: int| 0 <= r < NROWS implies a.rows[r] == b.rows[r] by {
            Row::lemma_formatted_unique(a.rows[r], b.rows[r], r as u8);
        }
        assert(a.rows =~= b.rows);
    }

    /// Clearing the colours of a frame twice leaves what clearing them once
    /// leaves.
    pub proof fn lemma_clear_idempotent(before: Self, once: Self, twice: Self)
        requires
            once.cleared_from(before),
            twice.cleared_from(once),
        ensures
            twice == once,
    {
        assert forall|r: int| 0 <= r < NROWS implies twice.rows[r] == once.rows[r] by {
            Row::lemma_clear_idempotent(before.rows[r], once.rows[r], twice.rows[r]);
        }
        assert(twice.rows =~= once.rows);
    }

    /// Clearing the colours of a dark frame changes nothing.
    pub proof fn lemma_clear_of_dark(before: Self, after: Self)
        requires
            before.dark(),
            after.cleared_from(before),
        ensures
            after == before,
    {
        assert forall|r: int| 0 <= r < NROWS implies after.rows[r] == before.rows[r] by {
            Row::lemma_clear_of_dark(before.rows[r], after.rows[r]);
        }
        assert(after.rows =~= before.rows);
    }

    /// Clearing the colours leaves a dark frame and keeps the stamp.
    pub proof fn lemma_cleared(before: Self, after: Self)
        requires
            after.cleared_from(before),
        ensures
            after.dark(),
            before.stamped() ==> after.stamped(),
    {
        assert forall|r: int| 0 <= r < NROWS implies (#[trigger] after.rows[r]).dark() && (
        before.stamped() ==> after.rows[r].stamped(r as u8)) by {
            Row::lemma_cleared(before.rows[r], after.rows[r], r as u8);
        }
    }

    /// Setting a pixel keeps the stamp.
    pub proof fn lemma_colored_keeps_stamp(
        before: Self,
        after: Self,
        y: int,
        x: int,
        red: bool,
        green: bool,
        blue: bool,
    )
        requires
            after.colored_from(before, y, x, red, green, blue),
            before.stamped(),
            0 <= y < 2 * NROWS,
        ensures
            after.stamped(),
    {
        let line = Self::scan_line(y);
        Row::lemma_colored_keeps_stamp(
            before.rows[line],
            after.rows[line],
            line as u8,
            y >= NROWS,
            x,
            red,
            green,
            blue,
        );
        assert forall|r: int| 0 <= r < NROWS implies (#[trigger] after.rows[r]).stamped(r as u8) by {
            if r != line {
                assert(after.rows[r] == before.rows[r]);
            }
        }
    }

    /// A frame of zero words.
    pub fn new() -> (frame: Self)
        ensures
            frame.zeroed(),
    {
        let row = Row::new();
        Self { rows: [row;NROWS] }
    }

    /// Stamps the control bits and the row address of every scan line and
    /// turns all colours off.
    pub fn format(&mut self)
        requires
            NROWS <= 32,
            order_fits(ESP32_ORDERING, COLS),
        ensures
            final(self).stamped(),
            final(self).dark(),
    {
        let mut addr: usize = 0;
        while addr < NROWS
            invariant
                addr <= NROWS <= 32,
                order_fits(ESP32_ORDERING, COLS),
                forall|r: int| 0 <= r < addr ==> (#[trigger] self.rows[r]).stamped(r as u8),
                forall|r: int| 0 <= r < addr ==> (#[trigger] self.rows[r]).dark(),
            decreases NROWS - addr,
        {
            self.rows[addr].format(addr as u8);
            addr += 1;
        }
    }

    /// Turns every colour bit off and leaves the control bits and the
    /// address words as they are.
    pub fn clear_colors(&mut self)
        ensures
            final(self).cleared_from(*old(self)),
    {
        let mut r: usize = 0;
        while r < NROWS
            invariant
                r <= NROWS,
                forall|done: int|
                    0 <= done < r ==> (#[trigger] self.rows[done]).cleared_from(old(self).rows[done]),
                forall|rest: int| r <= rest < NROWS ==> #[trigger] self.rows[rest] == old(self).rows[rest],
            decreases NROWS - r,
        {
            self.rows[r].clear_colors();
            r += 1;
        }
    }

    /// Appends the bytes of the frame, in memory order, to `bytes`.
    pub fn write_to(&self, bytes: &mut Vec<u8>)
        ensures
            final(bytes)@ == old(bytes)@ + self.memory_image(),
    {
        let mut r: usize = 0;
        while r < NROWS
            invariant
                r <= NROWS,
                bytes@ == old(bytes)@ + self.memory_image_of(r as int),
            decreases NROWS - r,
        {
            self.rows[r].write_to(bytes);
            r += 1;
        }
    }

    /// Sets the colour bits of the pixel in row `y` and column `x`.
    pub fn set_pixel(&mut self, y: usize, x: usize, red: bool, green: bool, blue: bool)
        requires
            y < 2 * NROWS,
            spec_map_index(ESP32_ORDERING, x) < COLS,
        ensures
            final(self).colored_from(*old(self), y as int, x as int, red, green, blue),
    {
        if y < NROWS {
            self.rows[y].set_color0(x, red, green, blue);
        } else {
            self.rows[y - NROWS].set_color1(x, red, green, blue);
        }
    }
}

impl<
    const ROWS: usize,
    const COLS: usize,
    const NROWS: usize,
    const ESP32_ORDERING: bool,
> Default for Frame<ROWS, COLS, NROWS, ESP32_ORDERING> {
    fn default() -> (frame: Self)
        ensures
            frame.zeroed(),
    {
        Self::new()
    }
}

/// Frame buffer for a HUB75 panel of `ROWS` rows and `COLS` columns behind
/// an external address latch.
///
/// Brightness comes from Binary Code Modulation: the picture is kept as
/// `FRAME_COUNT` frames that are shown in turn, and a colour channel of
/// intensity `v` is on in frame `n` if and only if `v` reaches
/// `(n + 1) * brightness_step`, where `brightness_step` is `256 / 2^BITS`.
/// With `FRAME_COUNT == 2^BITS - 1` this gives `2^BITS` levels per channel.
///
/// `NROWS` is the number of scan lines, `ROWS / 2`. With `ESP32_ORDERING`
/// the words are kept in the byte order of the first-generation ESP32's I2S
/// peripheral. With `SKIP_BLACK_PIXELS` drawing a black pixel changes
/// nothing, which is faster on a canvas that was erased before, but black
/// then no longer overwrites a lit pixel.
#[derive(Debug, Clone, Copy)]
pub struct DmaFrameBuffer<
    const ROWS: usize,
    const COLS: usize,
    const NROWS: usize,
    const BITS: u8,
    const FRAME_COUNT: usize,
    const ESP32_ORDERING: bool,
    const SKIP_BLACK_PIXELS: bool,
> {
    /// The frames, in the order in which they are shown
    pub frames: [Frame<ROWS, COLS, NROWS, ESP32_ORDERING>; FRAME_COUNT],
}

impl<
    const ROWS: usize,
    const COLS: usize,
    const NROWS: usize,
    const BITS: u8,
    const FRAME_COUNT: usize,
    const ESP32_ORDERING: bool,
    const SKIP_BLACK_PIXELS: bool,
> DmaFrameBuffer<ROWS, COLS, NROWS, BITS, FRAME_COUNT, ESP32_ORDERING, SKIP_BLACK_PIXELS> {
    /// The buffer can be formatted: the scan lines have row addresses below
    /// 32 and the columns fit the byte order.
    pub open spec fn can_format() -> bool {
        &&& NROWS <= 32
        &&& order_fits(ESP32_ORDERING, COLS)
    }

    /// Pixels can be set: every row of the panel has a scan line, the bit
    /// depth is at most 8 and the columns fit the byte order.
    pub open spec fn can_draw() -> bool {
        &&& ROWS <= 2 * NROWS
        &&& BITS <= 8
        &&& order_fits(ESP32_ORDERING, COLS)
    }

    /// The dimensions and the bit depth fit together, so that a buffer can
    /// be built, formatted and drawn on: the bit depth is from 1 to 8, every
    /// row of the panel has a scan line, the scan lines have row addresses
    /// below 32 and the columns fit the byte order.
    pub open spec fn valid_config() -> bool {
        &&& 1 <= BITS <= 8
        &&& Self::can_format()
        &&& Self::can_draw()
    }

    /// The intensity that separates one brightness level from the next:
    /// `256 / 2^BITS`.
    pub open spec fn brightness_step() -> int {
        pow2((8 - BITS) as nat) as int
    }

    /// The number of frames in which a channel of intensity `v` is on: the
    /// number of whole brightness steps in `v`.
    pub open spec fn spec_frames_on(v: u8) -> int {
        v as int / Self::brightness_step()
    }

    /// Whether a channel of intensity `v` is on in frame `n`.
    pub open spec fn lit(n: int, v: u8) -> bool {
        v >= (n + 1) * Self::brightness_step()
    }

    /// The colour bits that a pixel of colour `color` has in frame `n`, as
    /// (red, green, blue).
    pub open spec fn bit_plane(n: int, color: Color) -> (bool, bool, bool) {
        (Self::lit(n, color.red), Self::lit(n, color.green), Self::lit(n, color.blue))
    }

    /// Whether setting the pixel in column `x` and row `y` to `color`
    /// changes the buffer: the pixel is on the panel and, where black pixels
    /// are skipped, the colour is not black.
    pub open spec fn draws(x: int, y: int, color: Color) -> bool {
        &&& 0 <= x < COLS
        &&& 0 <= y < ROWS
        &&& !(SKIP_BLACK_PIXELS && color == Color::black())
    }

    /// Every frame has its control bits and row addresses in place (see
    /// [`Frame::stamped`]). A buffer must be in this state to be shown;
    /// `new` and `format` establish it, and erasing and drawing keep it.
    pub open spec fn stamped(&self) -> bool {
        forall|f: int| 0 <= f < FRAME_COUNT ==> (#[trigger] self.frames[f]).stamped()
    }

    /// Every colour bit of the buffer is off.
    pub open spec fn dark(&self) -> bool {
        forall|f: int| 0 <= f < FRAME_COUNT ==> (#[trigger] self.frames[f]).dark()
    }

    /// This buffer is `before` with every colour bit turned off and nothing
    /// else changed.
    pub open spec fn erased_from(&self, before: Self) -> bool {
        forall|f: int|
            0 <= f < FRAME_COUNT ==> (#[trigger] self.frames[f]).cleared_from(before.frames[f])
    }

    /// This buffer is `before` with the pixel in column `x` and row `y` set
    /// to `color` in every frame, and nothing else changed.
    pub open spec fn painted_from(&self, before: Self, x: int, y: int, color: Color) -> bool {
        forall|f: int|
            0 <= f < FRAME_COUNT ==> (#[trigger] self.frames[f]).colored_from(
                before.frames[f],
                y,
                x,
                Self::lit(f, color.red),
                Self::lit(f, color.green),
                Self::lit(f, color.blue),
            )
    }

    /// This buffer is what setting the pixel at `p` to `color` makes of
    /// `before`: `before` itself where nothing is drawn.
    pub open spec fn set_from(&self, before: Self, p: Point, color: Color) -> bool {
        if Self::draws(p.x as int, p.y as int, color) {
            self.painted_from(before, p.x as int, p.y as int, color)
        } else {
            *self == before
        }
    }

    /// The colour bits that the pixel in column `x` and row `y` has in frame
    /// `n`, as (red, green, blue).
    pub open spec fn pixel(&self, n: int, x: int, y: int) -> (bool, bool, bool) {
        self.frames[n].pixel(y, x)
    }

    /// `states` are the buffers that drawing `pixels` in order leads
    /// through, from `before` to `after`: each comes from the one before it
    /// by setting one pixel.
    pub open spec fn drawing_trace(
        states: Seq<Self>,
        before: Self,
        after: Self,
        pixels: Seq<Pixel>,
    ) -> bool {
        &&& states.len() == pixels.len() + 1
        &&& states[0] == before
        &&& states[pixels.len() as int] == after
        &&& forall|i: int|
            0 <= i < pixels.len() ==> states[i + 1].set_from(
                #[trigger] states[i],
                pixels[i].0,
                pixels[i].1,
            )
    }

    /// This buffer is what drawing `pixels` in order makes of `before`.
    pub open spec fn drawn_from(&self, before: Self, pixels: Seq<Pixel>) -> bool {
        exists|states: Seq<Self>| Self::drawing_trace(states, before, *self, pixels)
    }

    /// The bytes of the first `count` frames in memory order.
    pub open spec fn memory_image_of(&self, count: int) -> Seq<u8>
        decreases count,
    {
        if count <= 0 {
            Seq::empty()
        } else {
            self.memory_image_of(count - 1) + self.frames[count - 1].memory_image()
        }
    }

    /// The bytes of the buffer in memory order: those of its frames, one
    /// after the other. Each scan line takes `COLS + 4` bytes.
    pub open spec fn memory_image(&self) -> Seq<u8> {
        self.memory_image_of(FRAME_COUNT as int)
    }

    /// The number of bytes of one frame.
    pub open spec fn frame_bytes() -> int {
        NROWS * (COLS + 4)
    }

    /// The number of bytes of the buffer.
    pub open spec fn buffer_bytes() -> int {
        FRAME_COUNT * Self::frame_bytes()
    }

    /// A channel that is at least as intense is on in at least as many
    /// frames.
    pub proof fn lemma_frames_on_monotonic(v1: u8, v2: u8)
        requires
            BITS <= 8,
            v1 <= v2,
        ensures
            Self::spec_frames_on(v1) <= Self::spec_frames_on(v2),
    {
        let step = Self::brightness_step();
        lemma_pow2_pos((8 - BITS) as nat);
        vstd::arithmetic::div_mod::lemma_div_is_ordered(v1 as int, v2 as int, step);
    }

    /// A channel of intensity 0 is on in no frame, and one of full intensity
    /// in `2^BITS - 1` frames, which no channel exceeds. With the frame
    /// count that belongs to the bit depth, full intensity is on in every
    /// frame.
    pub proof fn lemma_frames_on_range(v: u8)
        requires
            BITS <= 8,
        ensures
            Self::spec_frames_on(0) == 0,
            Self::spec_frames_on(255) == pow2(BITS as nat) - 1,
            0 <= Self::spec_frames_on(v) <= pow2(BITS as nat) - 1,
            FRAME_COUNT == pow2(BITS as nat) - 1 ==> Self::spec_frames_on(255) == FRAME_COUNT,
    {
        let step = Self::brightness_step();
        let levels = pow2(BITS as nat) as int;
        lemma2_to64();
        lemma_pow2_pos((8 - BITS) as nat);
        lemma_pow2_pos(BITS as nat);
        vstd::arithmetic::power2::lemma_pow2_adds(BITS as nat, (8 - BITS) as nat);
        assert(levels * step == 256);
        assert(255 == (levels - 1) * step + (step - 1)) by (nonlinear_arith)
            requires
                levels * step == 256,
        ;
        vstd::arithmetic::div_mod::lemma_fundamental_div_mod_converse(
            255,
            step,
            levels - 1,
            step - 1,
        );
        vstd::arithmetic::div_mod::lemma_fundamental_div_mod_converse(0, step, 0, 0);
        Self::lemma_frames_on_monotonic(0, v);
        Self::lemma_frames_on_monotonic(v, 255);
    }

    /// A buffer that is stamped and dark is known word for word: this is
    /// the state in which `new` and `format` leave it.
    pub proof fn lemma_formatted_unique(a: Self, b: Self)
        requires
            a.stamped() && a.dark(),
            b.stamped() && b.dark(),
        ensures
            a == b,
    {
        assert forall|f: int| 0 <= f < FRAME_COUNT implies a.frames[f] == b.frames[f] by {
            Frame::lemma_formatted_unique(a.frames[f], b.frames[f]);
        }
        assert(a.frames =~= b.frames);
    }

    /// Erasing twice leaves what erasing once leaves.
    pub proof fn lemma_erase_idempotent(before: Self, once: Self, twice: Self)
        requires
            once.erased_from(before),
            twice.erased_from(once),
        ensures
            twice == once,
    {
        assert forall|f: int| 0 <= f < FRAME_COUNT implies twice.frames[f] == once.frames[f] by {
            Frame::lemma_clear_idempotent(before.frames[f], once.frames[f], twice.frames[f]);
        }
        assert(twice.frames =~= once.frames);
    }

    /// Erasing a freshly formatted buffer changes nothing: all colours are
    /// off and every control bit is as `format` left it.
    pub proof fn lemma_erase_after_format(formatted: Self, erased: Self)
        requires
            formatted.stamped(),
            formatted.dark(),
            erased.erased_from(formatted),
        ensures
            erased == formatted,
    {
        assert forall|f: int| 0 <= f < FRAME_COUNT implies erased.frames[f] == formatted.frames[f] by {
            Frame::lemma_clear_of_dark(formatted.frames[f], erased.frames[f]);
        }
        assert(erased.frames =~= formatted.frames);
    }

    /// Erasing leaves a dark buffer and keeps the stamp.
    pub proof fn lemma_erased(before: Self, after: Self)
        requires
            after.erased_from(before),
        ensures
            after.dark(),
            before.stamped() ==> after.stamped(),
    {
        assert forall|f: int| 0 <= f < FRAME_COUNT implies (#[trigger] after.frames[f]).dark() && (
        before.stamped() ==> after.frames[f].stamped()) by {
            Frame::lemma_cleared(before.frames[f], after.frames[f]);
        }
    }

    /// Painting a pixel of the panel keeps the stamp.
    pub proof fn lemma_painted_keeps_stamp(before: Self, after: Self, x: int, y: int, color: Color)
        requires
            Self::can_draw(),
            after.painted_from(before, x, y, color),
            0 <= y < ROWS,
            before.stamped(),
        ensures
            after.stamped(),
    {
        assert forall|f: int| 0 <= f < FRAME_COUNT implies (#[trigger] after.frames[f]).stamped() by {
            Frame::lemma_colored_keeps_stamp(
                before.frames[f],
                after.frames[f],
                y,
                x,
                Self::lit(f, color.red),
                Self::lit(f, color.green),
                Self::lit(f, color.blue),
            );
        }
    }

    /// Setting a pixel keeps the stamp.
    pub proof fn lemma_set_keeps_stamp(before: Self, after: Self, p: Point, color: Color)
        requires
            Self::can_draw(),
            after.set_from(before, p, color),
            before.stamped(),
        ensures
            after.stamped(),
    {
        if Self::draws(p.x as int, p.y as int, color) {
            Self::lemma_painted_keeps_stamp(before, after, p.x as int, p.y as int, color);
        }
    }

    /// The colour bits that the pixel in column `x` and row `y` has in frame
    /// `n` after `pixels` were drawn in order on a buffer in which it had
    /// the bits `start`: those of the last of `pixels` that was drawn at
    /// this place, or `start` if there is none.
    pub open spec fn drawn_pixel(
        start: (bool, bool, bool),
        pixels: Seq<Pixel>,
        n: int,
        x: int,
        y: int,
    ) -> (bool, bool, bool)
        decreases pixels.len(),
    {
        if pixels.len() == 0 {
            start
        } else {
            let last = pixels.last();
            if last.0.x == x && last.0.y == y && Self::draws(x, y, last.1) {
                Self::bit_plane(n, last.1)
            } else {
                Self::drawn_pixel(start, pixels.drop_last(), n, x, y)
            }
        }
    }

    /// A pixel that was set reads back, in every frame, as the bit plane of
    /// its colour.
    pub proof fn lemma_set_pixel_reads_back(
        before: Self,
        after: Self,
        p: Point,
        color: Color,
        n: int,
    )
        requires
            after.set_from(before, p, color),
            Self::draws(p.x as int, p.y as int, color),
            0 <= n < FRAME_COUNT,
        ensures
            after.pixel(n, p.x as int, p.y as int) == Self::bit_plane(n, color),
    {
        assert(after.frames[n].colored_from(
            before.frames[n],
            p.y as int,
            p.x as int,
            Self::lit(n, color.red),
            Self::lit(n, color.green),
            Self::lit(n, color.blue),
        ));
    }

    /// Setting a pixel leaves the colour bits of every other pixel of the
    /// panel as they were.
    pub proof fn lemma_set_keeps_other_pixels(
        before: Self,
        after: Self,
        p: Point,
        color: Color,
        n: int,
        x: int,
        y: int,
    )
        requires
            Self::can_draw(),
            after.set_from(before, p, color),
            0 <= n < FRAME_COUNT,
            0 <= x < COLS,
            0 <= y < ROWS,
            x != p.x || y != p.y,
        ensures
            after.pixel(n, x, y) == before.pixel(n, x, y),
    {
        if Self::draws(p.x as int, p.y as int, color) {
            let line = Frame::<ROWS, COLS, NROWS, ESP32_ORDERING>::scan_line(y);
            let drawn_line = Frame::<ROWS, COLS, NROWS, ESP32_ORDERING>::scan_line(p.y as int);
            assert(after.frames[n].colored_from(
                before.frames[n],
                p.y as int,
                p.x as int,
                Self::lit(n, color.red),
                Self::lit(n, color.green),
                Self::lit(n, color.blue),
            ));
            lemma_map_index_in_range(ESP32_ORDERING, x as usize, COLS);
            lemma_map_index_involution(ESP32_ORDERING, x as usize);
            lemma_map_index_involution(ESP32_ORDERING, p.x as usize);
            if line != drawn_line {
                assert(after.frames[n].rows[line] == before.frames[n].rows[line]);
            } else if slot(ESP32_ORDERING, x) != slot(ESP32_ORDERING, p.x as int) {
                assert(after.frames[n].rows[line].data[slot(ESP32_ORDERING, x)]
                    == before.frames[n].rows[line].data[slot(ESP32_ORDERING, x)]);
            }
        }
    }

    /// After a run of pixels was drawn, every pixel of the panel shows what
    /// the last pixel of the run at its place set, and pixels at whose place
    /// nothing was drawn are as they were.
    pub proof fn lemma_drawn_last_write_wins(
        before: Self,
        after: Self,
        pixels: Seq<Pixel>,
        n: int,
        x: int,
        y: int,
    )
        requires
            Self::can_draw(),
            after.drawn_from(before, pixels),
            0 <= n < FRAME_COUNT,
            0 <= x < COLS,
            0 <= y < ROWS,
        ensures
            after.pixel(n, x, y) == Self::drawn_pixel(before.pixel(n, x, y), pixels, n, x, y),
        decreases pixels.len(),
    {
        let states = choose|states: Seq<Self>| Self::drawing_trace(states, before, after, pixels);
        if pixels.len() > 0 {
            let last = pixels.last();
            let earlier = states[pixels.len() - 1];
            let shorter = states.drop_last();
            assert(after.set_from(earlier, last.0, last.1));
            assert(Self::drawing_trace(shorter, before, earlier, pixels.drop_last())) by {
                assert forall|i: int| 0 <= i < pixels.drop_last().len() implies shorter[i + 1].set_from(
                    #[trigger] shorter[i],
                    pixels.drop_last()[i].0,
                    pixels.drop_last()[i].1,
                ) by {
                    assert(states[i + 1].set_from(states[i], pixels[i].0, pixels[i].1));
                }
            }
            Self::lemma_drawn_last_write_wins(before, earlier, pixels.drop_last(), n, x, y);
            if last.0.x == x && last.0.y == y {
                if Self::draws(x, y, last.1) {
                    Self::lemma_set_pixel_reads_back(earlier, after, last.0, last.1, n);
                }
            } else {
                Self::lemma_set_keeps_other_pixels(earlier, after, last.0, last.1, n, x, y);
            }
        }
    }

    /// In a stamped buffer, whatever was drawn, the address words of every
    /// scan line carry the number of the scan line and exactly one of the
    /// four has the latch low; every entry word has the latch low and
    /// exactly one of a scan line, if it has any, has the output disabled.
    pub proof fn lemma_stamped_words(fb: Self)
        requires
            fb.stamped(),
        ensures
            forall|f: int, r: int, i: int|
                0 <= f < FRAME_COUNT && 0 <= r < NROWS && 0 <= i < 4 ==> (
                #[trigger] fb.frames[f].rows[r].address[i])@.addr == r,
            forall|f: int, r: int|
                0 <= f < FRAME_COUNT && 0 <= r < NROWS ==> (
                #[trigger] fb.frames[f].rows[r]).one_unlatched(),
            forall|f: int, r: int, i: int|
                0 <= f < FRAME_COUNT && 0 <= r < NROWS && 0 <= i < COLS ==> !(
                #[trigger] fb.frames[f].rows[r].data[i])@.latch,
            COLS > 0 ==> forall|f: int, r: int|
                0 <= f < FRAME_COUNT && 0 <= r < NROWS ==> (
                #[trigger] fb.frames[f].rows[r]).one_blanked(),
    {
        assert forall|f: int, r: int| 0 <= f < FRAME_COUNT && 0 <= r < NROWS implies {
            let row = #[trigger] fb.frames[f].rows[r];
            &&& forall|i: int| 0 <= i < 4 ==> (#[trigger] row.address[i])@.addr == r
            &&& row.one_unlatched()
            &&& forall|i: int| 0 <= i < COLS ==> !(#[trigger] row.data[i])@.latch
            &&& COLS > 0 ==> row.one_blanked()
        } by {
            assert(fb.frames[f].stamped());
            Row::lemma_stamped_words(fb.frames[f].rows[r], r as u8);
        }
    }

    /// A formatted buffer with all colours off, ready to be shown and to be
    /// drawn on. Dimensions or a bit depth that do not fit together are not
    /// admitted.
    #[must_use]
    pub fn new() -> (fb: Self)
        requires
            Self::valid_config(),
        ensures
            fb.stamped(),
            fb.dark(),
    {
        let frame = Frame::new();
        let mut fb = Self { frames: [frame;FRAME_COUNT] };
        fb.format();
        fb
    }

    /// Stamps the control bits and row addresses of every frame and turns
    /// all colours off.
    pub fn format(&mut self)
        requires
            Self::can_format(),
        ensures
            final(self).stamped(),
            final(self).dark(),
    {
        let mut f: usize = 0;
        while f < FRAME_COUNT
            invariant
                f <= FRAME_COUNT,
                Self::can_format(),
                forall|done: int| 0 <= done < f ==> (#[trigger] self.frames[done]).stamped(),
                forall|done: int| 0 <= done < f ==> (#[trigger] self.frames[done]).dark(),
            decreases FRAME_COUNT - f,
        {
            self.frames[f].format();
            f += 1;
        }
    }

    /// Turns all colours off and leaves the control bits and row addresses
    /// as they are.
    pub fn erase(&mut self)
        ensures
            final(self).erased_from(*old(self)),
            final(self).dark(),
            old(self).stamped() ==> final(self).stamped(),
    {
        let mut f: usize = 0;
        while f < FRAME_COUNT
            invariant
                f <= FRAME_COUNT,
                forall|done: int|
                    0 <= done < f ==> (#[trigger] self.frames[done]).cleared_from(
                        old(self).frames[done],
                    ),
                forall|rest: int|
                    f <= rest < FRAME_COUNT ==> #[trigger] self.frames[rest] == old(self).frames[rest],
            decreases FRAME_COUNT - f,
        {
            self.frames[f].clear_colors();
            f += 1;
        }
        proof {
            Self::lemma_erased(*old(self), *self);
        }
    }

    /// Sets the pixel at `p` to `color`. A point off the panel is ignored.
    pub fn set_pixel(&mut self, p: Point, color: Color)
        requires
            Self::can_draw(),
        ensures
            final(self).set_from(*old(self), p, color),
            Self::draws(p.x as int, p.y as int, color) ==> forall|n: int|
                0 <= n < FRAME_COUNT ==> #[trigger] final(self).pixel(n, p.x as int, p.y as int)
                    == Self::bit_plane(n, color),
            old(self).stamped() ==> final(self).stamped(),
    {
        if p.x < 0 || p.y < 0 {
            return ;
        }
        self.set_pixel_internal(p.x as usize, p.y as usize, color);
    }

    /// The number of frames in which a channel of intensity `v` is on.
    pub fn frames_on(v: u8) -> (count: usize)
        requires
            BITS <= 8,
        ensures
            count == Self::spec_frames_on(v),
            count == (v as usize) >> ((8 - BITS) as usize),
    {
        proof {
            vstd::bits::lemma_usize_shr_is_div(v as usize, (8 - BITS) as usize);
        }
        (v as usize) >> ((8 - BITS) as usize)
    }

    /// Sets the pixel in column `x` and row `y` to `color`. A position off
    /// the panel is ignored.
    pub fn set_pixel_internal(&mut self, x: usize, y: usize, color: Color)
        requires
            Self::can_draw(),
        ensures
            if Self::draws(x as int, y as int, color) {
                final(self).painted_from(*old(self), x as int, y as int, color)
            } else {
                *final(self) == *old(self)
            },
            Self::draws(x as int, y as int, color) ==> forall|n: int|
                0 <= n < FRAME_COUNT ==> #[trigger] final(self).pixel(n, x as int, y as int)
                    == Self::bit_plane(n, color),
            old(self).stamped() ==> final(self).stamped(),
    {
        if x >= COLS || y >= ROWS {
            return ;
        }
        if SKIP_BLACK_PIXELS && color.is_black() {
            return ;
        }
        let red_frames = Self::frames_on(color.r());
        let green_frames = Self::frames_on(color.g());
        let blue_frames = Self::frames_on(color.b());

        let mut frame_idx: usize = 0;
        while frame_idx < FRAME_COUNT
            invariant
                frame_idx <= FRAME_COUNT,
                Self::can_draw(),
                x < COLS,
                y < ROWS,
                red_frames == Self::spec_frames_on(color.red),
                green_frames == Self::spec_frames_on(color.green),
                blue_frames == Self::spec_frames_on(color.blue),
                forall|f: int|
                    0 <= f < frame_idx ==> (#[trigger] self.frames[f]).colored_from(
                        old(self).frames[f],
                        y as int,
                        x as int,
                        Self::lit(f, color.red),
                        Self::lit(f, color.green),
                        Self::lit(f, color.blue),
                    ),
                forall|f: int|
                    frame_idx <= f < FRAME_COUNT ==> #[trigger] self.frames[f] == old(self).frames[f],
            decreases FRAME_COUNT - frame_idx,
        {
            proof {
                lemma_map_index_in_range(ESP32_ORDERING, x, COLS);
                Self::lemma_frames_on_threshold(color.red, frame_idx as int);
                Self::lemma_frames_on_threshold(color.green, frame_idx as int);
                Self::lemma_frames_on_threshold(color.blue, frame_idx as int);
            }
            self.frames[frame_idx].set_pixel(
                y,
                x,
                frame_idx < red_frames,
                frame_idx < green_frames,
                frame_idx < blue_frames,
            );
            frame_idx += 1;
        }
        proof {
            if old(self).stamped() {
                Self::lemma_painted_keeps_stamp(*old(self), *self, x as int, y as int, color);
            }
        }
    }

    /// The size of the buffer in bytes, which is the length of its memory
    /// image.
    pub fn dma_buffer_size_bytes() -> (bytes: usize)
        requires
            Self::buffer_bytes() <= usize::MAX,
        ensures
            bytes == Self::buffer_bytes(),
    {
        if FRAME_COUNT == 0 || NROWS == 0 {
            proof {
                assert(Self::buffer_bytes() == 0) by (nonlinear_arith)
                    requires
                        FRAME_COUNT == 0 || NROWS == 0,
                        Self::buffer_bytes() == FRAME_COUNT * (NROWS * (COLS + 4)),
                ;
            }
            return 0;
        }
        proof {
            assert(COLS + 4 <= NROWS * (COLS + 4) <= FRAME_COUNT * (NROWS * (COLS + 4)))
                by (nonlinear_arith)
                requires
                    FRAME_COUNT >= 1,
                    NROWS >= 1,
            ;
        }
        let row_bytes: usize = COLS + 4;
        let frame_bytes: usize = NROWS * row_bytes;
        FRAME_COUNT * frame_bytes
    }

    /// The memory image has as many bytes as the buffer.
    pub proof fn lemma_memory_image_len(fb: Self)
        ensures
            fb.memory_image().len() == Self::buffer_bytes(),
    {
        Self::lemma_memory_image_of_len(fb, FRAME_COUNT as int);
    }

    proof fn lemma_memory_image_of_len(fb: Self, count: int)
        requires
            0 <= count,
        ensures
            fb.memory_image_of(count).len() == count * Self::frame_bytes(),
        decreases count,
    {
        if count > 0 {
            Self::lemma_memory_image_of_len(fb, count - 1);
            Self::lemma_frame_image_len(fb.frames[count - 1], NROWS as int);
            assert(fb.memory_image_of(count) == fb.memory_image_of(count - 1) + fb.frames[count
                - 1].memory_image());
            assert((count - 1) * Self::frame_bytes() + Self::frame_bytes() == count
                * Self::frame_bytes()) by (nonlinear_arith);
        } else {
            assert(fb.memory_image_of(count) == Seq::<u8>::empty());
            assert(count * Self::frame_bytes() == 0) by (nonlinear_arith)
                requires
                    count == 0,
            ;
        }
    }

    proof fn lemma_frame_image_len(frame: Frame<ROWS, COLS, NROWS, ESP32_ORDERING>, count: int)
        requires
            0 <= count,
        ensures
            frame.memory_image_of(count).len() == count * (COLS + 4),
        decreases count,
    {
        if count > 0 {
            Self::lemma_frame_image_len(frame, count - 1);
            assert(frame.memory_image_of(count) == frame.memory_image_of(count - 1) + frame.rows[count
                - 1].memory_image());
            assert(frame.rows[count - 1].memory_image().len() == COLS + 4);
            assert((count - 1) * (COLS + 4) + (COLS + 4) == count * (COLS + 4))
                by (nonlinear_arith);
        } else {
            assert(frame.memory_image_of(count) == Seq::<u8>::empty());
            assert(count * (COLS + 4) == 0) by (nonlinear_arith)
                requires
                    count == 0,
            ;
        }
    }

    /// The size of the canvas: `COLS` wide and `ROWS` high, each cut to 32
    /// bits.
    pub fn size(&self) -> (size: Size)
        ensures
            size == (Size { width: COLS as u32, height: ROWS as u32 }),
    {
        Size::new(
            #[verifier::truncate]
            (COLS as u32),
            #[verifier::truncate]
            (ROWS as u32),
        )
    }

    /// Draws the pixels in order, so that of two pixels at one place the
    /// later one stays. Pixels off the panel are ignored; drawing cannot
    /// fail.
    pub fn draw_iter(&mut self, pixels: &[Pixel]) -> (done: Result<(), core::convert::Infallible>)
        requires
            Self::can_draw(),
        ensures
            done is Ok,
            final(self).drawn_from(*old(self), pixels@),
            old(self).stamped() ==> final(self).stamped(),
    {
        let ghost mut states: Seq<Self> = seq![*self];
        let mut i: usize = 0;
        while i < pixels.len()
            invariant
                i <= pixels.len(),
                Self::can_draw(),
                Self::drawing_trace(states, *old(self), *self, pixels@.take(i as int)),
                old(self).stamped() ==> self.stamped(),
            decreases pixels.len() - i,
        {
            let pixel = pixels[i];
            let ghost earlier = *self;
            let ghost trace = states;
            self.set_pixel(pixel.0, pixel.1);
            proof {
                states = trace.push(*self);
                let drawn = pixels@.take(i + 1);
                assert forall|k: int| 0 <= k < drawn.len() implies states[k + 1].set_from(
                    #[trigger] states[k],
                    drawn[k].0,
                    drawn[k].1,
                ) by {
                    if k < i {
                        assert(trace[k + 1].set_from(
                            trace[k],
                            pixels@.take(i as int)[k].0,
                            pixels@.take(i as int)[k].1,
                        ));
                    }
                }
                if old(self).stamped() {
                    Self::lemma_set_keeps_stamp(earlier, *self, pixel.0, pixel.1);
                }
            }
            i += 1;
        }
        proof {
            assert(pixels@.take(pixels.len() as int) == pixels@);
        }
        Ok(())
    }

    /// Copies the bytes of the buffer in memory order: this is what a
    /// transfer engine streams to the panel, `buffer_bytes()` bytes in all.
    pub fn read_buffer(&self) -> (bytes: Vec<u8>)
        ensures
            bytes@ == self.memory_image(),
            bytes@.len() == Self::buffer_bytes(),
    {
        let mut bytes: Vec<u8> = Vec::new();
        let mut f: usize = 0;
        while f < FRAME_COUNT
            invariant
                f <= FRAME_COUNT,
                bytes@ == self.memory_image_of(f as int),
            decreases FRAME_COUNT - f,
        {
            self.frames[f].write_to(&mut bytes);
            f += 1;
        }
        proof {
            Self::lemma_memory_image_len(*self);
        }
        bytes
    }

    /// A channel is on in frame `n` exactly if `n` is below the number of
    /// frames in which it is on.
    pub proof fn lemma_frames_on_threshold(v: u8, n: int)
        requires
            BITS <= 8,
            0 <= n,
        ensures
            n < Self::spec_frames_on(v) <==> Self::lit(n, v),
    {
        let step = Self::brightness_step();
        lemma_pow2_pos((8 - BITS) as nat);
        assert(n < (v as int) / step <==> (v as int) >= (n + 1) * step) by (nonlinear_arith)
            requires
                step > 0,
                0 <= n,
                0 <= v,
        ;
    }
}

impl<
    const ROWS: usize,
    const COLS: usize,
    const NROWS: usize,
    const BITS: u8,
    const FRAME_COUNT: usize,
    const ESP32_ORDERING: bool,
    const SKIP_BLACK_PIXELS: bool,
> Default for DmaFrameBuffer<
    ROWS,
    COLS,
    NROWS,
    BITS,
    FRAME_COUNT,
    ESP32_ORDERING,
    SKIP_BLACK_PIXELS,
> {
    /// The buffer that `new` gives. Where the dimensions and the bit depth do
    /// not fit together, every word of the buffer is zero: such a buffer is
    /// not formatted and must not be shown.
    fn default() -> (fb: Self)
        ensures
            if Self::valid_config() {
                fb.stamped() && fb.dark()
            } else {
                forall|f: int| 0 <= f < FRAME_COUNT ==> (#[trigger] fb.frames[f]).zeroed()
            },
    {
        let depth_fits = 1 <= BITS && BITS <= 8;
        let rows_fit = NROWS <= 32 && ROWS - ROWS / 2 <= NROWS;
        let columns_fit = !ESP32_ORDERING || COLS % 4 == 0;
        if depth_fits && rows_fit && columns_fit {
            Self::new()
        } else {
            let frame = Frame::new();
            Self { frames: [frame;FRAME_COUNT] }
        }
    }
}

impl<
    const ROWS: usize,
    const COLS: usize,
    const NROWS: usize,
    const BITS: u8,
    const FRAME_COUNT: usize,
    const ESP32_ORDERING: bool,
    const SKIP_BLACK_PIXELS: bool,
> FrameBuffer<ROWS, COLS, NROWS, BITS, FRAME_COUNT> for DmaFrameBuffer<
    ROWS,
    COLS,
    NROWS,
    BITS,
    FRAME_COUNT,
    ESP32_ORDERING,
    SKIP_BLACK_PIXELS,
> {
    open spec fn memory_image(&self) -> Seq<u8> {
        self.memory_image_of(FRAME_COUNT as int)
    }

    /// The words of this buffer are 8 bits wide.
    open spec fn word_size(&self) -> WordSize {
        WordSize::Eight
    }

    fn get_word_size(&self) -> (word_size: WordSize) {
        WordSize::Eight
    }

    fn read_buffer(&self) -> (bytes: Vec<u8>) {
        DmaFrameBuffer::read_buffer(self)
    }
}

impl<
    const ROWS: usize,
    const COLS: usize,
    const NROWS: usize,
    const BITS: u8,
    const FRAME_COUNT: usize,
    const ESP32_ORDERING: bool,
    const SKIP_BLACK_PIXELS: bool,
> MutableFrameBuffer<ROWS, COLS, NROWS, BITS, FRAME_COUNT> for DmaFrameBuffer<
    ROWS,
    COLS,
    NROWS,
    BITS,
    FRAME_COUNT,
    ESP32_ORDERING,
    SKIP_BLACK_PIXELS,
> {
    open spec fn can_draw_batch() -> bool {
        Self::can_draw()
    }

    open spec fn after_draw(&self, before: &Self, pixels: Seq<Pixel>) -> bool {
        self.drawn_from(*before, pixels)
    }

    fn draw_iter(&mut self, pixels: &[Pixel]) -> (done: Result<(), core::convert::Infallible>) {
        DmaFrameBuffer::draw_iter(self, pixels)
    }
}

impl<
    const ROWS: usize,
    const COLS: usize,
    const NROWS: usize,
    const BITS: u8,
    const FRAME_COUNT: usize,
    const ESP32_ORDERING: bool,
    const SKIP_BLACK_PIXELS: bool,
> FrameBufferOperations<ROWS, COLS, NROWS, BITS, FRAME_COUNT> for DmaFrameBuffer<
    ROWS,
    COLS,
    NROWS,
    BITS,
    FRAME_COUNT,
    ESP32_ORDERING,
    SKIP_BLACK_PIXELS,
> {
    open spec fn can_set_pixel() -> bool {
        Self::can_draw()
    }

    open spec fn after_erase(&self, before: &Self) -> bool {
        self.erased_from(*before)
    }

    open spec fn after_set_pixel(&self, before: &Self, p: Point, color: Color) -> bool {
        self.set_from(*before, p, color)
    }

    fn erase(&mut self) {
        DmaFrameBuffer::erase(self)
    }

    fn set_pixel(&mut self, p: Point, color: Color) {
        DmaFrameBuffer::set_pixel(self, p, color)
    }
}

} // verus!

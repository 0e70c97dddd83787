//! How the columns of a trace are packed into words.
use vstd::prelude::*;

verus! {

/// How rows are packed, as it is handed to the prover: columns without a source are handed over
/// as nothing.
pub struct PackedInfoFFI<'a> {
    pub is_packed: bool,
    pub num_packed_words: u64,
    pub unpack_info: &'a [u64],
    /// For each column, 0 where it is in the row and 1 where it is in the table.
    pub col_source: Option<&'a [u8]>,
    pub index_bits: u64,
    pub words_per_entry: u64,
}

/// How rows are packed.
#[derive(Debug)]
pub struct PackedInfo {
    pub is_packed: bool,
    pub num_packed_words: u64,
    pub unpack_info: Vec<u64>,
    /// For each column, 0 where it is in the row and 1 where it is in the table; empty where
    /// there is no table.
    pub col_source: Vec<u8>,
    /// The bits of the index in front of a compact row.
    pub index_bits: u64,
    /// The words of a table entry.
    pub words_per_entry: u64,
}

impl Default for PackedInfo {
    /// Not packed.
    fn default() -> (r: Self)
        ensures
            !r.is_packed,
            r.num_packed_words == 0,
            r.unpack_info@ == Seq::<u64>::empty(),
            r.col_source@ == Seq::<u8>::empty(),
            r.index_bits == 0,
            r.words_per_entry == 0,
    {
        PackedInfo {
            is_packed: false,
            num_packed_words: 0,
            unpack_info: Vec::new(),
            col_source: Vec::new(),
            index_bits: 0,
            words_per_entry: 0,
        }
    }
}

impl PackedInfo {
    /// Rows without a table.
    pub fn new(is_packed: bool, num_packed_words: u64, unpack_info: Vec<u64>) -> (r: Self)
        ensures
            r.is_packed == is_packed,
            r.num_packed_words == num_packed_words,
            r.unpack_info == unpack_info,
            r.col_source@ == Seq::<u8>::empty(),
            r.index_bits == 0,
            r.words_per_entry == 0,
    {
        PackedInfo {
            is_packed,
            num_packed_words,
            unpack_info,
            col_source: Vec::new(),
            index_bits: 0,
            words_per_entry: 0,
        }
    }

    /// The same rows with a table.
    pub fn with_indexed(self, col_source: Vec<u8>, index_bits: u64, words_per_entry: u64) -> (r:
        Self)
        ensures
            r == (PackedInfo { col_source, index_bits, words_per_entry, ..self }),
    {
        PackedInfo {
            is_packed: self.is_packed,
            num_packed_words: self.num_packed_words,
            unpack_info: self.unpack_info,
            col_source,
            index_bits,
            words_per_entry,
        }
    }

    /// Whether there is a table.
    pub fn is_indexed(&self) -> (r: bool)
        ensures
            r == (self.col_source@.len() > 0),
    {
        self.col_source.len() > 0
    }

    /// What is handed to the prover.
    pub fn as_ffi(&self) -> (r: PackedInfoFFI<'_>)
        ensures
            r.is_packed == self.is_packed,
            r.num_packed_words == self.num_packed_words,
            r.unpack_info@ == self.unpack_info@,
            match r.col_source {
                Some(s) => self.col_source@.len() > 0 && s@ == self.col_source@,
                None => self.col_source@.len() == 0,
            },
            r.index_bits == self.index_bits,
            r.words_per_entry == self.words_per_entry,
    {
        PackedInfoFFI {
            is_packed: self.is_packed,
            num_packed_words: self.num_packed_words,
            unpack_info: self.unpack_info.as_slice(),
            col_source: if self.col_source.len() == 0 {
                None
            } else {
                Some(self.col_source.as_slice())
            },
            index_bits: self.index_bits,
            words_per_entry: self.words_per_entry,
        }
    }
}

/// How rows are packed, for rows that are known in advance.
#[derive(Debug)]
pub struct PackedInfoConst {
    pub is_packed: bool,
    pub num_packed_words: u64,
    pub unpack_info: &'static [u64],
}

impl PackedInfoConst {
    /// Rows that are known in advance.
    pub fn new(is_packed: bool, num_packed_words: u64, unpack_info: &'static [u64]) -> (r: Self)
        ensures
            r == (PackedInfoConst { is_packed, num_packed_words, unpack_info }),
    {
        PackedInfoConst { is_packed, num_packed_words, unpack_info }
    }
}

} // verus!

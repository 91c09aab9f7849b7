//! Walks a word image and decodes each word.
use vstd::prelude::*;

use crate::instruction::{spec_decode, Instruction, Word};

verus! {

/// What a word of the image holds.
#[derive(Clone, Copy, Debug, PartialEq, Eq, Structural)]
pub enum ItemContent {
    Instruction(Instruction),
    InvalidInstruction,
}

/// One decoded word and its address.
#[derive(Clone, Copy, Debug, PartialEq, Eq, Structural)]
pub struct Item {
    pub address: u16,
    pub content: ItemContent,
}

/// Content of a word: its instruction, or invalid.
pub open spec fn content_of(w: u16) -> ItemContent {
    match spec_decode(w) {
        Ok(i) => ItemContent::Instruction(i),
        Err(_) => ItemContent::InvalidInstruction,
    }
}

pub struct Disassembler {
    data: Vec<Word>,
    offset: usize,
}

impl Disassembler {
    pub closed spec fn words(&self) -> Seq<Word> {
        self.data@
    }

    /// Index of the next word to decode.
    pub closed spec fn position(&self) -> nat {
        self.offset as nat
    }

    /// A disassembler at the first word of `data`.
    pub fn new(data: Vec<Word>) -> (r: Disassembler)
        ensures
            r.words() == data@,
            r.position() == 0,
    {
        Disassembler { data, offset: 0 }
    }

    /// The next word with its address (the index, modulo 2^16) and content,
    /// or `None` past the end.
    pub fn next(&mut self) -> (r: Option<Item>)
        ensures
            final(self).words() == old(self).words(),
            old(self).position() < old(self).words().len() ==> r == Some(
                Item {
                    address: (old(self).position() % 0x1_0000) as u16,
                    content: content_of(old(self).words()[old(self).position() as int]),
                },
            ) && final(self).position() == old(self).position() + 1,
            old(self).position() >= old(self).words().len() ==> r is None && final(self).position()
                == old(self).position(),
    {
        if self.offset >= self.data.len() {
            return None;
        }
        let w = self.data[self.offset];
        let address = (self.offset % 0x1_0000) as u16;
        self.offset = self.offset + 1;
        let content = match Instruction::decode(w) {
            Ok(i) => ItemContent::Instruction(i),
            Err(_) => ItemContent::InvalidInstruction,
        };
        Some(Item { address, content })
    }
}

} // verus!

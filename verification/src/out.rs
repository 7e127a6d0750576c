//! The line-oriented output that generated text is collected in.
//!
//! An output is a sequence of items: whole lines, and the marks that separate
//! one section of lines from the next. The marks are structure for whoever lays
//! the text out; they add nothing to the text itself.

use vstd::prelude::*;
use vstd::string::*;

verus! {

/// One item of an output, as the contracts see it.
pub enum Item {
    /// The boundary before a new section.
    Section,
    /// One line, without its line feed.
    Line(Seq<char>),
}

/// One item of an output.
#[derive(Debug, PartialEq, Eq)]
pub enum OutItem {
    /// The boundary before a new section.
    Section,
    /// One line, without its line feed.
    Line(String),
}

impl View for OutItem {
    type V = Item;

    open spec fn view(&self) -> Item {
        match self {
            OutItem::Section => Item::Section,
            OutItem::Line(line) => Item::Line(line@),
        }
    }
}

/// The text that one item stands for: nothing for a section mark, the line and
/// a line feed for a line.
pub open spec fn item_text(item: Item) -> Seq<char> {
    match item {
        Item::Section => Seq::empty(),
        Item::Line(line) => line.push('\n'),
    }
}

/// The text that a sequence of items stands for.
pub open spec fn text_of(items: Seq<Item>) -> Seq<char>
    decreases items.len(),
{
    if items.len() == 0 {
        Seq::empty()
    } else {
        text_of(items.drop_last()) + item_text(items.last())
    }
}

/// The items that a sequence of lines makes.
pub open spec fn as_lines(lines: Seq<Seq<char>>) -> Seq<Item> {
    lines.map_values(|line: Seq<char>| Item::Line(line))
}

/// The text of two runs of items, one after the other, is the text of the first
/// followed by the text of the second.
pub proof fn lemma_text_of_concat(a: Seq<Item>, b: Seq<Item>)
    ensures
        text_of(a + b) == text_of(a) + text_of(b),
    decreases b.len(),
{
    if b.len() > 0 {
        lemma_text_of_concat(a, b.drop_last());
        assert((a + b).drop_last() =~= a + b.drop_last());
    }
}

/// How often `item` occurs in `items`.
pub open spec fn count(items: Seq<Item>, item: Item) -> nat
    decreases items.len(),
{
    if items.len() == 0 {
        0
    } else {
        count(items.drop_last(), item) + if items.last() == item {
            1nat
        } else {
            0nat
        }
    }
}

/// An item occurs in two runs of items, one after the other, as often as in the
/// first and in the second together.
pub proof fn lemma_count_concat(a: Seq<Item>, b: Seq<Item>, item: Item)
    ensures
        count(a + b, item) == count(a, item) + count(b, item),
    decreases b.len(),
{
    if b.len() > 0 {
        lemma_count_concat(a, b.drop_last(), item);
        assert((a + b).drop_last() =~= a + b.drop_last());
    }
}

/// An item that is nowhere in a run of items occurs in it zero times.
pub proof fn lemma_count_absent(items: Seq<Item>, item: Item)
    requires
        forall|i: int| 0 <= i < items.len() ==> items[i] != item,
    ensures
        count(items, item) == 0,
    decreases items.len(),
{
    if items.len() > 0 {
        lemma_count_absent(items.drop_last(), item);
    }
}

/// An output under construction.
#[derive(Debug, PartialEq, Eq)]
pub struct OutFile {
    /// The items written so far, oldest first.
    pub items: Vec<OutItem>,
}

impl View for OutFile {
    type V = Seq<Item>;

    open spec fn view(&self) -> Seq<Item> {
        self.items@.map_values(|item: OutItem| item@)
    }
}

impl OutFile {
    /// An output that holds nothing yet.
    pub fn new() -> (out: OutFile)
        ensures
            out@ == Seq::<Item>::empty(),
    {
        let out = OutFile { items: Vec::new() };
        out
    }

    /// Marks the boundary before a new section.
    pub fn next_section(&mut self)
        ensures
            final(self)@ == old(self)@.push(Item::Section),
    {
        self.items.push(OutItem::Section);
    }

    /// Writes `line` as one line.
    pub fn write_line(&mut self, line: String)
        ensures
            final(self)@ == old(self)@.push(Item::Line(line@)),
    {
        self.items.push(OutItem::Line(line));
    }

    /// The text written so far: every line with its line feed, in order.
    pub fn text(&self) -> (text: String)
        ensures
            text@ == text_of(self@),
    {
        let mut text = String::new();
        let mut i: usize = 0;
        while i < self.items.len()
            invariant
                i <= self.items@.len(),
                text@ == text_of(self@.take(i as int)),
            decreases self.items@.len() - i,
        {
            proof {
                let upto = self@.take(i + 1);
                assert(upto.drop_last() =~= self@.take(i as int));
            }
            match &self.items[i] {
                OutItem::Section => {},
                OutItem::Line(line) => {
                    text.append(line.as_str());
                    text.push('\n');
                },
            }
            i += 1;
        }
        assert(self@.take(i as int) =~= self@);
        text
    }
}

} // verus!

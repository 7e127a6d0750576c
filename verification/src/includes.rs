//! The registry of headers that a generated file has to pull in.
//!
//! A registry holds the custom headers that were asked for, in the order in
//! which they were asked for, and a set of well-known capabilities, each of
//! which stands for one standard header. Rendering writes the custom headers
//! first and then one reference for every capability that is set, in one fixed
//! order.

use vstd::prelude::*;
use vstd::string::*;
use crate::text::{chars_of, escape, push_escaped};

verus! {

/// How a header reference is written: `#include "path"` or `#include <path>`.
#[derive(Clone, Copy, Debug, PartialEq, Eq, Structural)]
pub enum IncludeKind {
    /// `#include "path"`.
    Quoted,
    /// `#include <path>`.
    Bracketed,
}

/// A header to pull in. The path is not looked at: it goes into the generated
/// text as it is.
#[derive(Debug, PartialEq, Eq)]
pub struct Include {
    /// The path of the header, without the quotation marks or angle brackets
    /// around it.
    pub path: String,
    /// Whether the reference is written with quotation marks or with angle
    /// brackets.
    pub kind: IncludeKind,
}

/// An `Include` as the contracts see it.
pub struct IncludeView {
    pub path: Seq<char>,
    pub kind: IncludeKind,
}

impl View for Include {
    type V = IncludeView;

    open spec fn view(&self) -> IncludeView {
        IncludeView { path: self.path@, kind: self.kind }
    }
}

impl Clone for Include {
    fn clone(&self) -> (copy: Include)
        ensures
            copy@ == self@,
    {
        Include { path: self.path.clone(), kind: self.kind }
    }
}

/// A well-known capability of the standard library, each provided by one
/// header.
#[derive(Clone, Copy, Debug, PartialEq, Eq, Structural)]
pub enum Capability {
    Array,
    Cstddef,
    Cstdint,
    Cstring,
    Exception,
    Memory,
    New,
    String,
    TypeTraits,
    Utility,
    Vector,
    /// Needed on one platform only: its reference is wrapped in a test for
    /// that platform.
    Basetsd,
}

/// The order in which the references of the capabilities are rendered.
pub open spec fn capability_order() -> Seq<Capability> {
    seq![
        Capability::Array,
        Capability::Cstddef,
        Capability::Cstdint,
        Capability::Cstring,
        Capability::Exception,
        Capability::Memory,
        Capability::New,
        Capability::String,
        Capability::TypeTraits,
        Capability::Utility,
        Capability::Vector,
        Capability::Basetsd,
    ]
}

/// The place of a capability in the order.
pub open spec fn place(capability: Capability) -> int {
    match capability {
        Capability::Array => 0,
        Capability::Cstddef => 1,
        Capability::Cstdint => 2,
        Capability::Cstring => 3,
        Capability::Exception => 4,
        Capability::Memory => 5,
        Capability::New => 6,
        Capability::String => 7,
        Capability::TypeTraits => 8,
        Capability::Utility => 9,
        Capability::Vector => 10,
        Capability::Basetsd => 11,
    }
}

/// The text that refers to the header of a capability.
pub open spec fn capability_text(capability: Capability) -> Seq<char> {
    match capability {
        Capability::Array => "#include <array>\n"@,
        Capability::Cstddef => "#include <cstddef>\n"@,
        Capability::Cstdint => "#include <cstdint>\n"@,
        Capability::Cstring => "#include <cstring>\n"@,
        Capability::Exception => "#include <exception>\n"@,
        Capability::Memory => "#include <memory>\n"@,
        Capability::New => "#include <new>\n"@,
        Capability::String => "#include <string>\n"@,
        Capability::TypeTraits => "#include <type_traits>\n"@,
        Capability::Utility => "#include <utility>\n"@,
        Capability::Vector => "#include <vector>\n"@,
        Capability::Basetsd => "#if defined(_WIN32)\n#include <basetsd.h>\n#endif\n"@,
    }
}

/// The line that refers to a custom header: the path escaped between quotation
/// marks, or as it is between angle brackets.
pub open spec fn include_text(header: IncludeView) -> Seq<char> {
    match header.kind {
        IncludeKind::Quoted => "#include \""@ + escape(header.path) + "\"\n"@,
        IncludeKind::Bracketed => "#include <"@ + header.path + ">\n"@,
    }
}

/// The lines that refer to the custom headers, in their order.
pub open spec fn custom_text(custom: Seq<IncludeView>) -> Seq<char>
    decreases custom.len(),
{
    if custom.len() == 0 {
        Seq::empty()
    } else {
        custom_text(custom.drop_last()) + include_text(custom.last())
    }
}

/// The references of the first `count` capabilities of the order, each present
/// if and only if it is in `flags`.
pub open spec fn flag_text(flags: Set<Capability>, count: int) -> Seq<char>
    decreases count,
{
    if count <= 0 {
        Seq::empty()
    } else {
        let capability = capability_order()[count - 1];
        flag_text(flags, count - 1) + if flags.contains(capability) {
            capability_text(capability)
        } else {
            Seq::empty()
        }
    }
}

/// A registry as the contracts see it.
pub struct IncludesView {
    /// The custom headers, in the order of insertion.
    pub custom: Seq<IncludeView>,
    /// The capabilities that are set.
    pub flags: Set<Capability>,
}

impl IncludesView {
    /// The registry that holds nothing.
    pub open spec fn empty() -> IncludesView {
        IncludesView { custom: Seq::empty(), flags: Set::empty() }
    }

    /// This registry after `header` was inserted.
    pub open spec fn insert(self, header: IncludeView) -> IncludesView {
        IncludesView { custom: self.custom.push(header), flags: self.flags }
    }

    /// This registry after `capability` was set.
    pub open spec fn set(self, capability: Capability) -> IncludesView {
        IncludesView { custom: self.custom, flags: self.flags.insert(capability) }
    }

    /// The text that this registry renders to: the custom headers in the order
    /// of insertion, then the capabilities that are set, in their fixed order.
    pub open spec fn rendered(self) -> Seq<char> {
        custom_text(self.custom) + flag_text(self.flags, capability_order().len() as int)
    }
}

/// The headers that a generated file has to pull in.
#[derive(Debug, PartialEq, Eq)]
pub struct Includes {
    custom: Vec<Include>,
    /// One flag for each capability, at the place of the capability in the
    /// order.
    flags: [bool; 12],
}

impl View for Includes {
    type V = IncludesView;

    closed spec fn view(&self) -> IncludesView {
        IncludesView {
            custom: self.custom@.map_values(|header: Include| header@),
            flags: Set::new(|capability: Capability| self.flags@[place(capability)]),
        }
    }
}

impl Default for Includes {
    fn default() -> (includes: Includes)
        ensures
            includes@ == IncludesView::empty(),
    {
        Includes::new()
    }
}

/// The place of a capability in the order.
fn place_of(capability: Capability) -> (i: usize)
    ensures
        i == place(capability),
{
    match capability {
        Capability::Array => 0,
        Capability::Cstddef => 1,
        Capability::Cstdint => 2,
        Capability::Cstring => 3,
        Capability::Exception => 4,
        Capability::Memory => 5,
        Capability::New => 6,
        Capability::String => 7,
        Capability::TypeTraits => 8,
        Capability::Utility => 9,
        Capability::Vector => 10,
        Capability::Basetsd => 11,
    }
}

/// The capability at place `i` of the order.
fn capability_at(i: usize) -> (capability: Capability)
    requires
        i < capability_order().len(),
    ensures
        capability == capability_order()[i as int],
        place(capability) == i,
{
    match i {
        0 => Capability::Array,
        1 => Capability::Cstddef,
        2 => Capability::Cstdint,
        3 => Capability::Cstring,
        4 => Capability::Exception,
        5 => Capability::Memory,
        6 => Capability::New,
        7 => Capability::String,
        8 => Capability::TypeTraits,
        9 => Capability::Utility,
        10 => Capability::Vector,
        _ => Capability::Basetsd,
    }
}

/// The text that refers to the header of a capability.
fn reference(capability: Capability) -> (text: &'static str)
    ensures
        text@ == capability_text(capability),
{
    match capability {
        Capability::Array => "#include <array>\n",
        Capability::Cstddef => "#include <cstddef>\n",
        Capability::Cstdint => "#include <cstdint>\n",
        Capability::Cstring => "#include <cstring>\n",
        Capability::Exception => "#include <exception>\n",
        Capability::Memory => "#include <memory>\n",
        Capability::New => "#include <new>\n",
        Capability::String => "#include <string>\n",
        Capability::TypeTraits => "#include <type_traits>\n",
        Capability::Utility => "#include <utility>\n",
        Capability::Vector => "#include <vector>\n",
        Capability::Basetsd => "#if defined(_WIN32)\n#include <basetsd.h>\n#endif\n",
    }
}

impl Includes {
    /// A registry with no custom header and no capability set.
    pub fn new() -> (includes: Includes)
        ensures
            includes@ == IncludesView::empty(),
    {
        let includes = Includes { custom: Vec::new(), flags: [false; 12] };
        assert(includes@.custom =~= Seq::<IncludeView>::empty());
        assert(includes@.flags =~= Set::<Capability>::empty());
        includes
    }

    /// Appends a custom header. A header that was inserted before is inserted
    /// again: nothing is left out.
    pub fn insert(&mut self, header: Include)
        ensures
            final(self)@ == old(self)@.insert(header@),
    {
        self.custom.push(header);
        assert(self@.custom =~= old(self)@.custom.push(header@));
    }

    /// Appends copies of the custom headers in `headers`, in their order.
    pub fn extend(&mut self, headers: &[Include])
        ensures
            final(self)@.custom == old(self)@.custom + headers@.map_values(
                |header: Include| header@,
            ),
            final(self)@.flags == old(self)@.flags,
    {
        let mut i: usize = 0;
        while i < headers.len()
            invariant
                i <= headers@.len(),
                self@.custom == old(self)@.custom + headers@.take(i as int).map_values(
                    |header: Include| header@,
                ),
                self@.flags == old(self)@.flags,
            decreases headers@.len() - i,
        {
            self.insert(headers[i].clone());
            i += 1;
        }
    }

    /// Whether a capability is set.
    pub fn is_set(&self, capability: Capability) -> (r: bool)
        ensures
            r == self@.flags.contains(capability),
    {
        self.flags[place_of(capability)]
    }

    /// Sets a capability. One that is set stays set: nothing here clears it.
    pub fn set(&mut self, capability: Capability)
        ensures
            final(self)@ == old(self)@.set(capability),
    {
        self.flags[place_of(capability)] = true;
        assert(self@.flags =~= old(self)@.flags.insert(capability));
    }

    /// The text of the registry: one line for each custom header, in the order
    /// of insertion, then the reference of each capability that is set, in the
    /// fixed order of the capabilities.
    pub fn render(&self) -> (text: String)
        ensures
            text@ == self@.rendered(),
    {
        let mut text = String::new();
        let mut i: usize = 0;
        while i < self.custom.len()
            invariant
                i <= self.custom@.len(),
                text@ == custom_text(self@.custom.take(i as int)),
            decreases self.custom@.len() - i,
        {
            proof {
                let upto = self@.custom.take(i + 1);
                assert(upto.drop_last() =~= self@.custom.take(i as int));
            }
            let header = &self.custom[i];
            match header.kind {
                IncludeKind::Quoted => {
                    text.append("#include \"");
                    let path = chars_of(header.path.as_str());
                    let ghost before = text@;
                    let mut j: usize = 0;
                    while j < path.len()
                        invariant
                            j <= path@.len(),
                            text@ == before + escape(path@.take(j as int)),
                        decreases path@.len() - j,
                    {
                        proof {
                            assert(path@.take(j + 1).drop_last() =~= path@.take(j as int));
                        }
                        push_escaped(&mut text, path[j]);
                        j += 1;
                    }
                    assert(path@.take(j as int) =~= path@);
                    text.append("\"\n");
                },
                IncludeKind::Bracketed => {
                    text.append("#include <");
                    text.append(header.path.as_str());
                    text.append(">\n");
                },
            }
            i += 1;
        }
        assert(self@.custom.take(i as int) =~= self@.custom);
        let ghost custom = text@;
        let mut k: usize = 0;
        while k < 12
            invariant
                k <= 12 == capability_order().len(),
                text@ == custom + flag_text(self@.flags, k as int),
            decreases 12 - k,
        {
            let capability = capability_at(k);
            if self.is_set(capability) {
                text.append(reference(capability));
            }
            k += 1;
        }
        text
    }
}

/// Inserting the same custom header twice gives two equal lines behind the
/// lines that were there: nothing is left out as a duplicate.
pub proof fn lemma_insert_twice(includes: IncludesView, header: IncludeView)
    ensures
        includes.insert(header).insert(header).rendered() == custom_text(includes.custom)
            + include_text(header) + include_text(header) + flag_text(
            includes.flags,
            capability_order().len() as int,
        ),
{
    let once = includes.custom.push(header);
    let twice = once.push(header);
    assert(twice.drop_last() =~= once);
    assert(once.drop_last() =~= includes.custom);
    assert(custom_text(twice) == custom_text(once) + include_text(header));
}

/// Setting a capability that is set changes nothing: its reference is rendered
/// once, however often it was set.
pub proof fn lemma_set_twice(includes: IncludesView, capability: Capability)
    ensures
        includes.set(capability).set(capability) == includes.set(capability),
        includes.set(capability).set(capability).rendered() == includes.set(capability).rendered(),
{
    assert(includes.flags.insert(capability).insert(capability) =~= includes.flags.insert(
        capability,
    ));
}

/// A registry that holds nothing but one capability, set twice, renders to the
/// reference of that capability, once.
pub proof fn lemma_one_capability_one_reference(capability: Capability)
    ensures
        IncludesView::empty().set(capability).set(capability).rendered() == capability_text(
            capability,
        ),
{
    let flags = Set::<Capability>::empty().insert(capability).insert(capability);
    reveal_with_fuel(flag_text, 13);
    assert(flag_text(flags, 12) =~= capability_text(capability));
    assert(custom_text(Seq::empty()) + capability_text(capability) =~= capability_text(
        capability,
    ));
}

/// No operation of a registry clears a capability: after `insert` and after
/// `set` every capability that was set is set.
pub proof fn lemma_flags_stay(includes: IncludesView, header: IncludeView, capability: Capability)
    ensures
        includes.flags.subset_of(includes.insert(header).flags),
        includes.flags.subset_of(includes.set(capability).flags),
{
}

} // verus!

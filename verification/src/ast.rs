//! The parts of a parsed module that the checker reads.  Every span points
//! into the module's source text.
use vstd::prelude::*;

use crate::tokens::{stream_ok, Token};
use crate::types::Span;

verus! {

/// What a top-level declaration declares.
#[derive(Clone, Copy, Debug, PartialEq, Eq, Structural)]
pub enum DeclKind {
    Word,
    Resource,
    Iso,
    Owned,
    RegisterMap,
    /// Any declaration the checker does not inspect.
    Other,
}

/// An attribute on a declaration.
#[derive(Clone, Copy, Debug, PartialEq, Eq, Structural)]
pub enum AttrAst {
    /// `@interrupt(VECTOR)`: the word is an interrupt handler.
    Interrupt { vector: Span },
    /// Any attribute the checker does not inspect.
    Other,
}

/// A top-level declaration.
pub struct DeclAst {
    pub kind: DeclKind,
    pub name: Span,
    pub sig: Option<Span>,
    pub attrs: Vec<AttrAst>,
    pub body: Option<Span>,
    /// The tokens the lexer reads from the body, spans relative to the
    /// body's start, ending in `Eof`; empty when there is no body.
    pub body_tokens: Vec<Token>,
}

/// A field of a struct declaration.
#[derive(Clone, Copy, Debug)]
pub struct FieldAst {
    pub name: Span,
    pub ty: Span,
}

/// A struct declaration.
pub struct StructDeclAst {
    pub name: Span,
    pub fields: Vec<FieldAst>,
}

/// A variant of an enum declaration.
#[derive(Clone, Copy, Debug)]
pub struct VariantAst {
    pub name: Span,
}

/// An enum declaration, with its optional base type.
pub struct EnumDeclAst {
    pub name: Span,
    pub base: Option<Span>,
    pub variants: Vec<VariantAst>,
}

/// A register-map instance: `name` is an instance of map `map` at `base_addr`.
#[derive(Clone, Copy, Debug)]
pub struct InstanceAst {
    pub name: Span,
    pub map: Span,
    pub base_addr: Span,
}

/// A parsed module.
pub struct ModuleAst {
    pub name: Span,
    pub decls: Vec<DeclAst>,
    pub structs: Vec<StructDeclAst>,
    pub enums: Vec<EnumDeclAst>,
    pub instances: Vec<InstanceAst>,
}

/// An optional span lies inside a buffer of `len` bytes.
pub open spec fn opt_within(s: Option<Span>, len: nat) -> bool {
    match s {
        Some(sp) => sp.within(len),
        None => true,
    }
}

impl DeclAst {
    /// Every span of the declaration lies inside the source.
    pub open spec fn within(&self, len: nat) -> bool {
        &&& self.name.within(len)
        &&& opt_within(self.sig, len)
        &&& opt_within(self.body, len)
        &&& self.lexed()
    }

    /// The body's tokens form a stream over the body.
    pub open spec fn lexed(&self) -> bool {
        match self.body {
            Some(b) => stream_ok(self.body_tokens@, (b.end - b.start) as nat)
                && self.body_tokens@.len() + 8 <= usize::MAX,
            None => true,
        }
    }

    /// The declaration carries an `@interrupt` attribute.
    pub open spec fn is_interrupt(&self) -> bool {
        exists|i: int| 0 <= i < self.attrs@.len() && #[trigger] self.attrs@[i] is Interrupt
    }
}

impl StructDeclAst {
    pub open spec fn within(&self, len: nat) -> bool {
        &&& self.name.within(len)
        &&& forall|i: int|
            0 <= i < self.fields@.len() ==> (#[trigger] self.fields@[i]).name.within(len)
                && self.fields@[i].ty.within(len)
    }
}

impl EnumDeclAst {
    pub open spec fn within(&self, len: nat) -> bool {
        &&& self.name.within(len)
        &&& opt_within(self.base, len)
        &&& forall|i: int| 0 <= i < self.variants@.len() ==> (#[trigger] self.variants@[i]).name.within(len)
    }
}

impl ModuleAst {
    /// Every span of the module lies inside a source of `len` bytes.
    pub open spec fn within(&self, len: nat) -> bool {
        &&& self.name.within(len)
        &&& forall|i: int| 0 <= i < self.decls@.len() ==> (#[trigger] self.decls@[i]).within(len)
        &&& forall|i: int| 0 <= i < self.structs@.len() ==> (#[trigger] self.structs@[i]).within(len)
        &&& forall|i: int| 0 <= i < self.enums@.len() ==> (#[trigger] self.enums@[i]).within(len)
        &&& forall|i: int|
            0 <= i < self.instances@.len() ==> {
                &&& (#[trigger] self.instances@[i]).name.within(len)
                &&& self.instances@[i].map.within(len)
                &&& self.instances@[i].base_addr.within(len)
            }
    }
}

} // verus!

//! A self-describing binary type algebra ("strict types"): an AST of
//! composite data types over a closed set of primitives, confined
//! collections with load-bearing cardinality bounds, structural
//! classification and key-type narrowing, and a content-addressed
//! identity engine that derives a stable hash from a type's canonical
//! byte form.

pub mod armor;
pub mod decode;
pub mod display;
pub mod encode;
pub mod fields;
pub mod id;
pub mod ident;
pub mod order;
pub mod prim;
pub mod sem;
pub mod text;
pub mod ty;
pub mod typesys;
pub mod variants;
pub mod writer;

pub use fields::{BoundsError, Confined, Field, NamedFields, UnnamedFields};
pub use id::{SemId, TypeLibId};
pub use ident::{Ident, InvalidIdent};
pub use prim::{Primitive, Sizing};
pub use ty::{Cls, KeyTy, Ty};
pub use typesys::{TypeFqid, TypeFqn, TypeLib, TypeSystem};
pub use variants::{EnumVariants, UnionVariants, Variant};
pub use writer::{CountingWriter, StrictWriter};

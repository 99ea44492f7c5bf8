//! The documentation of a crate, as far as the registration of components reads it.
use crate::text::views;
use std::collections::HashMap;
use vstd::prelude::*;

verus! {

/// The identifier of an item, unique within the documentation of its crate.
#[derive(Debug, Copy, Clone, PartialEq, Eq, Hash, Structural)]
pub struct Id(pub u32);

/// The identifier of a package, unique within the dependency graph.
#[derive(Debug, PartialEq, Eq, Hash)]
pub struct PackageId(pub String);

impl Clone for PackageId {
    fn clone(&self) -> (res: Self)
        ensures
            res == *self,
    {
        PackageId(self.0.clone())
    }
}

/// The identifier of an item, unique within the dependency graph.
#[derive(Debug, PartialEq, Eq, Hash)]
pub struct GlobalItemId {
    pub rustdoc_item_id: Id,
    pub package_id: PackageId,
}

impl View for GlobalItemId {
    type V = (u32, Seq<char>);

    open spec fn view(&self) -> (u32, Seq<char>) {
        (self.rustdoc_item_id.0, self.package_id.0@)
    }
}

impl GlobalItemId {
    /// Whether `self` and `other` identify the same item.
    pub fn same(&self, other: &GlobalItemId) -> (res: bool)
        ensures
            res == (self@ == other@),
    {
        self.rustdoc_item_id.0 == other.rustdoc_item_id.0 && self.package_id.0 == other.package_id.0
    }
}

/// A region of a source file, from the line and column where it begins to those where it ends.
#[derive(Debug, PartialEq, Eq, Hash)]
pub struct Span {
    pub filename: String,
    pub begin: (usize, usize),
    pub end: (usize, usize),
}

impl Clone for Span {
    fn clone(&self) -> (res: Self)
        ensures
            res == *self,
    {
        Span { filename: self.filename.clone(), begin: self.begin, end: self.end }
    }
}

/// A type, as the signature of a function spells it.
#[derive(Debug, PartialEq, Eq, Hash)]
pub enum Type {
    /// `&'lifetime mut type_`.
    BorrowedRef { lifetime: Option<String>, is_mutable: bool, type_: Box<Type> },
    /// A generic parameter, or `Self`.
    Generic(String),
    /// Any other type: its position in a table that the owner of the documentation keeps.
    Other(usize),
}

/// A type, as the signature of a function spells it.
pub ghost enum TypeView {
    BorrowedRef { lifetime: Option<Seq<char>>, is_mutable: bool, type_: Box<TypeView> },
    Generic(Seq<char>),
    Other(usize),
}

impl View for Type {
    type V = TypeView;

    open spec fn view(&self) -> TypeView {
        self.spelling()
    }
}

impl Type {
    /// How the type is spelt.
    pub open spec fn spelling(&self) -> TypeView
        decreases self,
    {
        match self {
            Type::BorrowedRef { lifetime, is_mutable, type_ } => TypeView::BorrowedRef {
                lifetime: match lifetime {
                    Some(name) => Some(name@),
                    None => None,
                },
                is_mutable: *is_mutable,
                type_: Box::new((**type_).spelling()),
            },
            Type::Generic(name) => TypeView::Generic(name@),
            Type::Other(n) => TypeView::Other(*n),
        }
    }

    /// Whether `self` and `other` are spelt the same.
    pub fn same(&self, other: &Type) -> (res: bool)
        ensures
            res == (self@ == other@),
        decreases self,
    {
        match (self, other) {
            (
                Type::BorrowedRef { lifetime: l, is_mutable: m, type_: t },
                Type::BorrowedRef { lifetime, is_mutable, type_ },
            ) => {
                let same_lifetime = match (l, lifetime) {
                    (Some(a), Some(b)) => *a == *b,
                    (None, None) => true,
                    _ => false,
                };
                same_lifetime && *m == *is_mutable && (**t).same(&**type_)
            },
            (Type::Generic(a), Type::Generic(b)) => *a == *b,
            (Type::Other(a), Type::Other(b)) => *a == *b,
            _ => false,
        }
    }

    /// Whether this is `&Self` or `&mut Self`.
    pub open spec fn is_self_ref(self) -> bool {
        self matches Type::BorrowedRef { type_, .. } && *type_ matches Type::Generic(g) && g@
            == "Self"@
    }
}

/// What a function takes and what it returns.
#[derive(Debug, PartialEq, Eq, Hash)]
pub struct FunctionSignature {
    /// The name and the type of each parameter.
    pub inputs: Vec<(String, Type)>,
    pub output: Option<Type>,
}

/// A free function or a method.
#[derive(Debug, PartialEq, Eq, Hash)]
pub struct Function {
    pub sig: FunctionSignature,
    pub is_async: bool,
}

/// An `impl` block.
#[derive(Debug, PartialEq, Eq, Hash)]
pub struct Impl {
    /// The type that the block is for.
    pub for_: Type,
    /// The items of the block.
    pub items: Vec<Id>,
}

/// What kind of item an item is.
#[derive(Debug, PartialEq, Eq, Hash)]
pub enum ItemEnum {
    Struct { impls: Vec<Id> },
    Enum { impls: Vec<Id> },
    Function(Function),
    Impl(Impl),
    Trait,
    Other,
}

/// An item of a crate.
#[derive(Debug, PartialEq, Eq, Hash)]
pub struct Item {
    pub id: Id,
    pub name: Option<String>,
    /// Where the item is defined.
    pub span: Option<Span>,
    /// The attributes on the item.
    pub attrs: Vec<String>,
    pub inner: ItemEnum,
}

/// The paths under which an item can be imported.
#[derive(Debug, PartialEq, Eq, Hash)]
pub struct ImportIndexEntry {
    /// Whether the item can be imported from outside its crate.
    pub is_public: bool,
    /// Every path of the item.
    pub paths: Vec<Vec<String>>,
    /// The path where the item is defined.
    pub defined_at: Option<Vec<String>>,
    /// The path that is preferred when one is to be chosen.
    pub canonical_path: Vec<String>,
}

/// Whether the path `path` lies in the module `module`.
pub open spec fn lies_in(path: Seq<String>, module: Seq<String>) -> bool {
    views(module).is_prefix_of(views(path))
}

impl ImportIndexEntry {
    /// Whether the item is public and can be found in the module `module`.
    pub open spec fn is_exported_from(self, module: Seq<String>) -> bool {
        self.is_public && exists|i: int|
            0 <= i < self.paths@.len() && lies_in(#[trigger] self.paths@[i]@, module)
    }
}

/// The documentation of a crate.
#[derive(Debug)]
pub struct Crate {
    /// The name of the crate, as its manifest has it.
    pub crate_name: String,
    pub package_id: PackageId,
    /// The items of the crate, by identifier.
    pub items: HashMap<u32, Item>,
    /// The paths of the items that have some, by identifier.
    pub import_index: HashMap<u32, ImportIndexEntry>,
}

impl Crate {
    /// Whether `self` and `other` say the same, however their tables are laid out.
    pub open spec fn same_as(&self, other: &Crate) -> bool {
        &&& self.crate_name@ == other.crate_name@
        &&& self.package_id == other.package_id
        &&& self.items@ == other.items@
        &&& self.import_index@ == other.import_index@
    }

    /// Whether the documentation holds the item `id`.
    pub open spec fn has_item(&self, id: Id) -> bool {
        self.items@.contains_key(id.0)
    }

    /// The item `id`.
    pub open spec fn item(&self, id: Id) -> Item {
        self.items@[id.0]
    }

    /// Looks the item `id` up.
    pub fn get_item_by_local_type_id(&self, id: &Id) -> (res: &Item)
        requires
            self.has_item(*id),
        ensures
            *res == self.item(*id),
    {
        self.find_item(id).unwrap()
    }

    /// Looks the item `id` up, where it is there.
    pub fn find_item(&self, id: &Id) -> (res: Option<&Item>)
        ensures
            res is Some <==> self.has_item(*id),
            res matches Some(item) ==> *item == self.item(*id),
    {
        broadcast use vstd::std_specs::hash::group_hash_axioms;

        self.items.get(&id.0)
    }

    /// Whether some path is known of the item `id`.
    pub open spec fn has_entry(&self, id: Id) -> bool {
        self.import_index@.contains_key(id.0)
    }

    /// The paths of the item `id`.
    pub open spec fn entry(&self, id: Id) -> ImportIndexEntry {
        self.import_index@[id.0]
    }

    /// Looks the paths of the item `id` up.
    pub fn get_entry(&self, id: &Id) -> (res: &ImportIndexEntry)
        requires
            self.has_entry(*id),
        ensures
            *res == self.entry(*id),
    {
        broadcast use vstd::std_specs::hash::group_hash_axioms;

        self.import_index.get(&id.0).unwrap()
    }
}

/// The documentation of several crates.
#[derive(Debug)]
pub struct CrateCollection {
    pub crates: Vec<Crate>,
}

impl CrateCollection {
    /// The position of the first crate at or after `from` whose package is `package_id`.
    pub open spec fn position_from(self, package_id: PackageId, from: int) -> Option<int>
        decreases self.crates@.len() - from,
    {
        if from < 0 || from >= self.crates@.len() {
            None
        } else if self.crates@[from].package_id.0@ == package_id.0@ {
            Some(from)
        } else {
            self.position_from(package_id, from + 1)
        }
    }

    /// The first crate whose package is `package_id`.
    pub open spec fn crate_of(self, package_id: PackageId) -> Option<Crate> {
        match self.position_from(package_id, 0) {
            Some(i) => Some(self.crates@[i]),
            None => None,
        }
    }

    /// Whether `self` and `other` say the same of the same crates, in the same order.
    pub open spec fn same_as(&self, other: &CrateCollection) -> bool {
        &&& self.crates@.len() == other.crates@.len()
        &&& forall|i: int|
            0 <= i < self.crates@.len() ==> (#[trigger] self.crates@[i]).same_as(&other.crates@[i])
    }

    /// Collections that say the same find the same crate.
    pub proof fn lemma_same_position(&self, other: &CrateCollection, package_id: PackageId, from: int)
        requires
            self.same_as(other),
        ensures
            self.position_from(package_id, from) == other.position_from(package_id, from),
            self.position_from(package_id, from) matches Some(i) ==> 0 <= i < self.crates@.len(),
        decreases self.crates@.len() - from,
    {
        if 0 <= from < self.crates@.len() {
            assert(self.crates@[from].same_as(&other.crates@[from]));
            self.lemma_same_position(other, package_id, from + 1);
        }
    }

    /// Looks up the documentation of the package `package_id`.
    pub fn get_crate_by_package_id(&self, package_id: &PackageId) -> (res: Option<&Crate>)
        ensures
            res is Some <==> self.crate_of(*package_id) is Some,
            res matches Some(krate) ==> Some(*krate) == self.crate_of(*package_id),
    {
        let mut i: usize = 0;
        while i < self.crates.len()
            invariant
                i <= self.crates@.len(),
                self.position_from(*package_id, 0) == self.position_from(*package_id, i as int),
            decreases self.crates@.len() - i,
        {
            if self.crates[i].package_id.0 == package_id.0 {
                return Some(&self.crates[i]);
            }
            i = i + 1;
        }
        None
    }
}

} // verus!

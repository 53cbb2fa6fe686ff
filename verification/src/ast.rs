//! The parts of a parsed C/C++ translation unit that declaration selection reads.
//!
//! A front end turns each top-level cursor of the translation unit into an [`Entity`]:
//! its kind, whether it is a definition, its extent in the source file, its linkage,
//! its documentation comment and its children.
use vstd::prelude::*;

verus! {

/// The kinds of cursor that declaration selection tells apart.
#[derive(Clone, Copy, Debug, PartialEq, Eq, Structural)]
pub enum EntityKind {
    /// A function declaration or definition.
    FunctionDecl,
    /// A compound statement, such as the body of a function definition.
    CompoundStmt,
    /// Any other kind of cursor.
    Other,
}

/// The linkage of a cursor.
#[derive(Clone, Copy, Debug, PartialEq, Eq, Structural)]
pub enum Linkage {
    Automatic,
    Internal,
    UniqueExternal,
    External,
}

/// A position in the source: whether it lies in a file, and its byte offset there.
#[derive(Clone, Copy, Debug, PartialEq, Eq, Structural)]
pub struct Location {
    pub in_file: bool,
    pub offset: u32,
}

/// The start and end positions of a cursor; `end` is the position of its last byte.
#[derive(Clone, Copy, Debug, PartialEq, Eq, Structural)]
pub struct Extent {
    pub start: Location,
    pub end: Location,
}

/// A cursor of the translation unit.
#[derive(Debug)]
pub struct Entity {
    pub kind: EntityKind,
    pub definition: bool,
    pub extent: Option<Extent>,
    pub linkage: Option<Linkage>,
    pub comment: Option<String>,
    pub children: Vec<Entity>,
}

/// The first child of kind `CompoundStmt`, if any.
pub open spec fn first_compound(children: Seq<Entity>) -> Option<Entity>
    decreases children.len(),
{
    if children.len() == 0 {
        None
    } else if children[0].kind == EntityKind::CompoundStmt {
        Some(children[0])
    } else {
        first_compound(children.drop_first())
    }
}

/// The extent of the body of a function definition; `None` for anything else,
/// or when the body has no extent.
pub open spec fn body_extent(node: Entity) -> Option<Extent> {
    if node.kind == EntityKind::FunctionDecl && node.definition {
        match first_compound(node.children@) {
            Some(body) => body.extent,
            None => None,
        }
    } else {
        None
    }
}

/// Whether both ends of an extent lie in a file.
pub open spec fn in_file(x: Extent) -> bool {
    x.start.in_file && x.end.in_file
}

impl Entity {
    /// Whether the entity has internal linkage (a `static` declaration in C).
    pub open spec fn is_internal(self) -> bool {
        self.linkage == Some(Linkage::Internal)
    }

    /// What selecting a cursor in a file needs of it, or the arithmetic on its
    /// offsets would overflow: its end is not the last representable offset, and a
    /// function body does not start at offset zero.
    pub open spec fn well_formed(self) -> bool {
        match self.extent {
            Some(x) => in_file(x) ==> {
                &&& x.end.offset < u32::MAX
                &&& (body_extent(self) matches Some(b) ==> b.start.offset >= 1)
            },
            None => true,
        }
    }

    /// Whether this entity has internal linkage.
    pub fn internal(&self) -> (r: bool)
        ensures
            r == self.is_internal(),
    {
        match self.linkage {
            Some(Linkage::Internal) => true,
            _ => false,
        }
    }
}

/// The body of a function definition is its first child of kind `CompoundStmt`,
/// whichever position that child has (the first one included); a definition
/// without such a child, and a cursor that is not a function definition, has no
/// body.
pub proof fn law_body_is_first_compound_child(node: Entity, k: int)
    ensures
        node.kind == EntityKind::FunctionDecl && node.definition && 0 <= k < node.children@.len()
            && node.children@[k].kind == EntityKind::CompoundStmt && (forall|j: int|
            0 <= j < k ==> (#[trigger] node.children@[j]).kind != EntityKind::CompoundStmt)
            ==> body_extent(node) == node.children@[k].extent,
        (node.kind != EntityKind::FunctionDecl || !node.definition || forall|j: int|
            0 <= j < node.children@.len() ==> (#[trigger] node.children@[j]).kind
                != EntityKind::CompoundStmt) ==> body_extent(node) is None,
{
    let cs = node.children@;
    if 0 <= k < cs.len() && cs[k].kind == EntityKind::CompoundStmt && (forall|j: int|
        0 <= j < k ==> (#[trigger] cs[j]).kind != EntityKind::CompoundStmt) {
        lemma_first_compound_at(cs, k);
    }
    if forall|j: int| 0 <= j < cs.len() ==> (#[trigger] cs[j]).kind != EntityKind::CompoundStmt {
        lemma_first_compound_none(cs);
    }
}

proof fn lemma_first_compound_at(cs: Seq<Entity>, k: int)
    requires
        0 <= k < cs.len(),
        cs[k].kind == EntityKind::CompoundStmt,
        forall|j: int| 0 <= j < k ==> (#[trigger] cs[j]).kind != EntityKind::CompoundStmt,
    ensures
        first_compound(cs) == Some(cs[k]),
    decreases k,
{
    if k > 0 {
        assert(cs[0].kind != EntityKind::CompoundStmt);
        let rest = cs.drop_first();
        assert forall|j: int| 0 <= j < k - 1 implies (#[trigger] rest[j]).kind
            != EntityKind::CompoundStmt by {
            assert(rest[j] == cs[j + 1]);
        }
        lemma_first_compound_at(rest, k - 1);
        assert(rest[k - 1] == cs[k]);
    }
}

proof fn lemma_first_compound_none(cs: Seq<Entity>)
    requires
        forall|j: int| 0 <= j < cs.len() ==> (#[trigger] cs[j]).kind != EntityKind::CompoundStmt,
    ensures
        first_compound(cs) is None,
    decreases cs.len(),
{
    if cs.len() > 0 {
        assert(cs[0].kind != EntityKind::CompoundStmt);
        let rest = cs.drop_first();
        assert forall|j: int| 0 <= j < rest.len() implies (#[trigger] rest[j]).kind
            != EntityKind::CompoundStmt by {
            assert(rest[j] == cs[j + 1]);
        }
        lemma_first_compound_none(rest);
    }
}

/// Finds the first child of kind `CompoundStmt`.
pub fn find_compound(children: &Vec<Entity>) -> (r: Option<&Entity>)
    ensures
        match first_compound(children@) {
            Some(c) => r == Some(&c),
            None => r is None,
        },
{
    let n = children.len();
    let mut i: usize = 0;
    assert(children@.skip(0) =~= children@);
    while i < n
        invariant
            n == children@.len(),
            i <= n,
            first_compound(children@) == first_compound(children@.skip(i as int)),
        decreases n - i,
    {
        assert(children@.skip(i as int)[0] == children@[i as int]);
        assert(children@.skip(i as int).drop_first() =~= children@.skip(i + 1));
        if children[i].kind == EntityKind::CompoundStmt {
            return Some(&children[i]);
        }
        i = i + 1;
    }
    assert(children@.skip(i as int).len() == 0);
    None
}

/// Finds the extent of a function definition's body (`find_function_body_range`).
pub fn find_function_body_range(node: &Entity) -> (r: Option<Extent>)
    ensures
        r == body_extent(*node),
{
    if node.kind != EntityKind::FunctionDecl {
        return None;
    }
    if !node.definition {
        return None;
    }
    match find_compound(&node.children) {
        Some(body) => body.extent,
        None => None,
    }
}

} // verus!

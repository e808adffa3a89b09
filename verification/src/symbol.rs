//! Names of values and procedures in the intermediate representation.
use vstd::prelude::*;

verus! {

/// Number of a module of the program.
pub type ModuleId = u32;

/// Number of an identifier within its module.
pub type IdentId = usize;

/// The module that holds the names of procedure arguments.
pub const ATTR_MODULE: ModuleId = 0;

/// A name: an identifier of a module.
#[derive(Clone, Copy, Debug, PartialEq, Eq, Hash, Structural)]
pub struct Symbol {
    pub module_id: ModuleId,
    pub ident_id: IdentId,
}

impl Symbol {
    pub open spec fn spec_new(module_id: ModuleId, ident_id: IdentId) -> Symbol {
        Symbol { module_id, ident_id }
    }

    pub fn new(module_id: ModuleId, ident_id: IdentId) -> (symbol: Symbol)
        ensures
            symbol == Self::spec_new(module_id, ident_id),
    {
        Symbol { module_id, ident_id }
    }

    /// The first argument of a procedure.
    pub open spec fn spec_arg_1() -> Symbol {
        Symbol { module_id: ATTR_MODULE, ident_id: 1 }
    }

    pub fn arg_1() -> (symbol: Symbol)
        ensures
            symbol == Self::spec_arg_1(),
    {
        Symbol { module_id: ATTR_MODULE, ident_id: 1 }
    }

    /// The second argument of a procedure.
    pub open spec fn spec_arg_2() -> Symbol {
        Symbol { module_id: ATTR_MODULE, ident_id: 2 }
    }

    pub fn arg_2() -> (symbol: Symbol)
        ensures
            symbol == Self::spec_arg_2(),
    {
        Symbol { module_id: ATTR_MODULE, ident_id: 2 }
    }
}

/// The identifiers of one module, in the order in which they were added.
/// An identifier's number is its position.
pub struct IdentIds {
    names: Vec<String>,
}

impl View for IdentIds {
    type V = Seq<Seq<char>>;

    closed spec fn view(&self) -> Seq<Seq<char>> {
        Seq::new(self.names@.len(), |i: int| self.names@[i]@)
    }
}

impl IdentIds {
    pub fn new() -> (ids: IdentIds)
        ensures
            ids@ == Seq::<Seq<char>>::empty(),
    {
        let ids = IdentIds { names: Vec::new() };
        assert(ids@ =~= Seq::<Seq<char>>::empty());
        ids
    }

    pub fn len(&self) -> (n: usize)
        ensures
            n == self@.len(),
    {
        self.names.len()
    }

    /// The identifiers can be counted by the machine.
    pub proof fn lemma_len_bound(&self)
        ensures
            self@.len() <= usize::MAX,
    {
        broadcast use vstd::std_specs::vec::axiom_spec_len;

        assert(vstd::std_specs::vec::spec_vec_len(&self.names) == self.names@.len());
    }

    /// Adds an identifier and returns its number.
    pub fn add(&mut self, name: String) -> (id: IdentId)
        ensures
            id == old(self)@.len(),
            final(self)@ == old(self)@.push(name@),
    {
        let id = self.names.len();
        let ghost text = name@;
        self.names.push(name);
        assert(self@ =~= old(self)@.push(text));
        id
    }

    /// The text of an identifier.
    pub fn name(&self, id: IdentId) -> (text: &str)
        requires
            id < self@.len(),
        ensures
            text@ == self@[id as int],
    {
        self.names[id].as_str()
    }
}

} // verus!

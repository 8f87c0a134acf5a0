//! The compilation state: document metadata, the output buffer, and the
//! named entities (matrices, functions, variables) that one compile owns.
//! Its mathematical view is a record of byte sequences and association
//! sequences, on which all contracts are stated.

use vstd::prelude::*;

use crate::engine::{Engine, PyEngine};
use crate::util::{bytes_eq, push_all};

verus! {

/// A user-defined function, kept only when no scripting engine is attached.
pub struct Function {
    pub params: Vec<Vec<u8>>,
    pub body: Vec<u8>,
}

/// The mathematical view of a `Function`.
pub struct SpecFunction {
    pub params: Seq<Seq<u8>>,
    pub body: Seq<u8>,
}

impl View for Function {
    type V = SpecFunction;

    open spec fn view(&self) -> SpecFunction {
        SpecFunction { params: self.params.deep_view(), body: self.body@ }
    }
}

/// A named matrix: rows of rendered element texts, read-only once created.
pub struct Matrix {
    pub rows: Vec<Vec<Vec<u8>>>,
}

impl View for Matrix {
    type V = Seq<Seq<Seq<u8>>>;

    open spec fn view(&self) -> Seq<Seq<Seq<u8>>> {
        self.rows.deep_view()
    }
}

/// Document-level metadata gathered from the setup block.
pub struct SetupBlock {
    pub document_class: Vec<u8>,
    pub document_options: Vec<Vec<u8>>,
}

/// The rendered document: its title, authors and accumulated body text.
pub struct DocumentBlock {
    pub title: Vec<u8>,
    pub author: Vec<Vec<u8>>,
    pub body: Vec<u8>,
}

/// The single mutable context threaded through one compile.
pub struct LatexState {
    pub setup: SetupBlock,
    pub document: DocumentBlock,
    pub matrices: Vec<(Vec<u8>, Matrix)>,
    pub functions: Vec<(Vec<u8>, Function)>,
    pub variables: Vec<(Vec<u8>, Vec<u8>)>,
    pub engine: Engine,
}

/// The mathematical view of the whole state. The engine's own scope is
/// opaque; only which engine is attached is visible.
#[verifier::ext_equal]
pub struct SpecState {
    pub document_class: Seq<u8>,
    pub document_options: Seq<Seq<u8>>,
    pub title: Seq<u8>,
    pub authors: Seq<Seq<u8>>,
    pub body: Seq<u8>,
    pub matrices: Seq<(Seq<u8>, Seq<Seq<Seq<u8>>>)>,
    pub functions: Seq<(Seq<u8>, SpecFunction)>,
    pub variables: Seq<(Seq<u8>, Seq<u8>)>,
    pub python: bool,
}

impl View for LatexState {
    type V = SpecState;

    open spec fn view(&self) -> SpecState {
        SpecState {
            document_class: self.setup.document_class@,
            document_options: self.setup.document_options.deep_view(),
            title: self.document.title@,
            authors: self.document.author.deep_view(),
            body: self.document.body@,
            matrices: self.matrices@.map_values(|p: (Vec<u8>, Matrix)| (p.0@, p.1@)),
            functions: self.functions@.map_values(|p: (Vec<u8>, Function)| (p.0@, p.1@)),
            variables: self.variables@.map_values(|p: (Vec<u8>, Vec<u8>)| (p.0@, p.1@)),
            python: self.engine is Python,
        }
    }
}

/// Look a name up in an association sequence; the newest binding wins.
pub open spec fn assoc_lookup<V>(m: Seq<(Seq<u8>, V)>, k: Seq<u8>) -> Option<V>
    decreases m.len(),
{
    if m.len() == 0 {
        None
    } else if m.last().0 == k {
        Some(m.last().1)
    } else {
        assoc_lookup(m.drop_last(), k)
    }
}

/// Copy a byte matrix.
pub fn clone_rows(rows: &Vec<Vec<Vec<u8>>>) -> (r: Vec<Vec<Vec<u8>>>)
    ensures
        r.deep_view() == rows.deep_view(),
{
    let mut out: Vec<Vec<Vec<u8>>> = Vec::new();
    let mut i: usize = 0;
    while i < rows.len()
        invariant
            0 <= i <= rows@.len(),
            out.deep_view() =~~= rows.deep_view().take(i as int),
        decreases rows@.len() - i,
    {
        let row = &rows[i];
        let mut new_row: Vec<Vec<u8>> = Vec::new();
        let mut j: usize = 0;
        while j < row.len()
            invariant
                0 <= j <= row@.len(),
                new_row.deep_view() =~~= row.deep_view().take(j as int),
            decreases row@.len() - j,
        {
            new_row.push(vstd::slice::slice_to_vec(row[j].as_slice()));
            proof {
                assert(row.deep_view()[j as int] =~= row@[j as int]@);
                assert(row.deep_view().take(j + 1) =~= row.deep_view().take(j as int).push(
                    row.deep_view()[j as int],
                ));
                assert(new_row.deep_view() =~~= row.deep_view().take(j + 1));
            }
            j = j + 1;
        }
        proof {
            assert(new_row.deep_view() =~~= row.deep_view());
        }
        out.push(new_row);
        proof {
            assert(out.deep_view() =~~= rows.deep_view().take(i + 1));
        }
        i = i + 1;
    }
    proof {
        assert(out.deep_view() =~~= rows.deep_view());
    }
    out
}

/// Look a variable up by name; the newest binding wins.
pub fn lookup_variable(vars: &Vec<(Vec<u8>, Vec<u8>)>, k: &[u8]) -> (r: Option<Vec<u8>>)
    ensures
        (match r {
            Some(v) => assoc_lookup(vars@.map_values(|p: (Vec<u8>, Vec<u8>)| (p.0@, p.1@)), k@)
                == Some(v@),
            None => assoc_lookup(vars@.map_values(|p: (Vec<u8>, Vec<u8>)| (p.0@, p.1@)), k@)
                is None,
        }),
{
    let ghost m = vars@.map_values(|p: (Vec<u8>, Vec<u8>)| (p.0@, p.1@));
    let mut idx: usize = vars.len();
    proof {
        assert(m.take(idx as int) =~= m);
    }
    while idx > 0
        invariant
            0 <= idx <= vars@.len(),
            m == vars@.map_values(|p: (Vec<u8>, Vec<u8>)| (p.0@, p.1@)),
            assoc_lookup(m, k@) == assoc_lookup(m.take(idx as int), k@),
        decreases idx,
    {
        idx = idx - 1;
        if bytes_eq(vars[idx].0.as_slice(), k) {
            proof {
                assert(m.take(idx + 1).last() == (vars@[idx as int].0@, vars@[idx as int].1@));
                assert(assoc_lookup(m.take(idx + 1), k@) == Some(vars@[idx as int].1@));
            }
            return Some(vstd::slice::slice_to_vec(vars[idx].1.as_slice()));
        }
        proof {
            assert(m.take(idx + 1).last() == (vars@[idx as int].0@, vars@[idx as int].1@));
            assert(m.take(idx + 1).drop_last() =~= m.take(idx as int));
            assert(assoc_lookup(m.take(idx + 1), k@) == assoc_lookup(m.take(idx as int), k@));
        }
    }
    proof {
        assert(m.take(0) =~= Seq::<(Seq<u8>, Seq<u8>)>::empty());
        assert(assoc_lookup(m.take(0), k@) is None);
    }
    None
}

/// Look a named matrix up; the newest binding wins.
pub fn lookup_matrix(mats: &Vec<(Vec<u8>, Matrix)>, k: &[u8]) -> (r: Option<Vec<Vec<Vec<u8>>>>)
    ensures
        (match r {
            Some(v) => assoc_lookup(mats@.map_values(|p: (Vec<u8>, Matrix)| (p.0@, p.1@)), k@)
                == Some(v.deep_view()),
            None => assoc_lookup(mats@.map_values(|p: (Vec<u8>, Matrix)| (p.0@, p.1@)), k@)
                is None,
        }),
{
    let ghost m = mats@.map_values(|p: (Vec<u8>, Matrix)| (p.0@, p.1@));
    let mut idx: usize = mats.len();
    proof {
        assert(m.take(idx as int) =~= m);
    }
    while idx > 0
        invariant
            0 <= idx <= mats@.len(),
            m == mats@.map_values(|p: (Vec<u8>, Matrix)| (p.0@, p.1@)),
            assoc_lookup(m, k@) == assoc_lookup(m.take(idx as int), k@),
        decreases idx,
    {
        idx = idx - 1;
        if bytes_eq(mats[idx].0.as_slice(), k) {
            proof {
                assert(m.take(idx + 1).last() == (mats@[idx as int].0@, mats@[idx as int].1@));
                assert(assoc_lookup(m.take(idx + 1), k@) == Some(mats@[idx as int].1@));
            }
            return Some(clone_rows(&mats[idx].1.rows));
        }
        proof {
            assert(m.take(idx + 1).last() == (mats@[idx as int].0@, mats@[idx as int].1@));
            assert(m.take(idx + 1).drop_last() =~= m.take(idx as int));
            assert(assoc_lookup(m.take(idx + 1), k@) == assoc_lookup(m.take(idx as int), k@));
        }
    }
    proof {
        assert(m.take(0) =~= Seq::<(Seq<u8>, Seq<Seq<Seq<u8>>>)>::empty());
        assert(assoc_lookup(m.take(0), k@) is None);
    }
    None
}

impl LatexState {
    /// A fresh state with the embedded Python interpreter attached.
    pub fn new() -> (r: LatexState)
        ensures
            r@.python,
            r@.document_class.len() == 0,
            r@.document_options.len() == 0,
            r@.title.len() == 0,
            r@.authors.len() == 0,
            r@.body.len() == 0,
            r@.matrices.len() == 0,
            r@.functions.len() == 0,
            r@.variables.len() == 0,
    {
        LatexState {
            setup: SetupBlock { document_class: Vec::new(), document_options: Vec::new() },
            document: DocumentBlock { title: Vec::new(), author: Vec::new(), body: Vec::new() },
            matrices: Vec::new(),
            functions: Vec::new(),
            variables: Vec::new(),
            engine: Engine::Python(PyEngine::new()),
        }
    }

    /// A fresh state with no scripting backend: the compiler alone answers
    /// every lookup.
    pub fn new_internal() -> (r: LatexState)
        ensures
            !r@.python,
            r@.document_class.len() == 0,
            r@.document_options.len() == 0,
            r@.title.len() == 0,
            r@.authors.len() == 0,
            r@.body.len() == 0,
            r@.matrices.len() == 0,
            r@.functions.len() == 0,
            r@.variables.len() == 0,
    {
        LatexState {
            setup: SetupBlock { document_class: Vec::new(), document_options: Vec::new() },
            document: DocumentBlock { title: Vec::new(), author: Vec::new(), body: Vec::new() },
            matrices: Vec::new(),
            functions: Vec::new(),
            variables: Vec::new(),
            engine: Engine::Internal,
        }
    }

    pub fn set_title(&mut self, title: Vec<u8>)
        ensures
            final(self)@ == (SpecState { title: title@, ..old(self)@ }),
    {
        self.document.title = title;
        proof {
            assert(self@ =~~= SpecState { title: self.document.title@, ..old(self)@ });
        }
    }

    pub fn add_author(&mut self, author: Vec<u8>)
        ensures
            final(self)@ == (SpecState { authors: old(self)@.authors.push(author@), ..old(self)@ }),
    {
        let ghost av = author@;
        self.document.author.push(author);
        proof {
            assert(self.document.author.deep_view() =~~= old(self)@.authors.push(av));
            assert(self@ =~~= SpecState { authors: old(self)@.authors.push(av), ..old(self)@ });
        }
    }

    pub fn set_document_class(&mut self, document_class: Vec<u8>)
        ensures
            final(self)@ == (SpecState { document_class: document_class@, ..old(self)@ }),
    {
        self.setup.document_class = document_class;
        proof {
            assert(self@ =~~= SpecState {
                document_class: self.setup.document_class@,
                ..old(self)@
            });
        }
    }

    pub fn set_document_options(&mut self, document_options: Vec<Vec<u8>>)
        ensures
            final(self)@ == (SpecState {
                document_options: document_options.deep_view(),
                ..old(self)@
            }),
    {
        let ghost ov = document_options.deep_view();
        self.setup.document_options = document_options;
        proof {
            assert(self@ =~~= SpecState { document_options: ov, ..old(self)@ });
        }
    }

    pub fn append_to_body(&mut self, body: Vec<u8>)
        ensures
            final(self)@ == (SpecState { body: old(self)@.body + body@, ..old(self)@ }),
    {
        push_all(&mut self.document.body, body.as_slice());
        proof {
            assert(self@ =~~= SpecState { body: old(self)@.body + body@, ..old(self)@ });
        }
    }

    /// Record a named matrix; a later binding shadows an earlier one.
    pub fn add_matrix(&mut self, name: Vec<u8>, rows: Vec<Vec<Vec<u8>>>)
        ensures
            final(self)@ == (SpecState {
                matrices: old(self)@.matrices.push((name@, rows.deep_view())),
                ..old(self)@
            }),
    {
        let ghost nv = name@;
        let ghost rv = rows.deep_view();
        self.matrices.push((name, Matrix { rows }));
        proof {
            assert(self.matrices@.map_values(|p: (Vec<u8>, Matrix)| (p.0@, p.1@))
                =~~= old(self)@.matrices.push((nv, rv)));
            assert(self@ =~~= SpecState {
                matrices: old(self)@.matrices.push((nv, rv)),
                ..old(self)@
            });
        }
    }

    /// Record a named variable; a later binding shadows an earlier one.
    pub fn add_variable(&mut self, name: Vec<u8>, value: Vec<u8>)
        ensures
            final(self)@ == (SpecState {
                variables: old(self)@.variables.push((name@, value@)),
                ..old(self)@
            }),
    {
        let ghost nv = name@;
        let ghost vv = value@;
        self.variables.push((name, value));
        proof {
            assert(self.variables@.map_values(|p: (Vec<u8>, Vec<u8>)| (p.0@, p.1@))
                =~~= old(self)@.variables.push((nv, vv)));
            assert(self@ =~~= SpecState {
                variables: old(self)@.variables.push((nv, vv)),
                ..old(self)@
            });
        }
    }
}

} // verus!

//! The scripting collaborator. The compiler itself only needs four
//! operations — define a code region, evaluate an expression, and inspect a
//! named value's matrix shape and elements — so the embedded Python
//! interpreter sits entirely behind the trusted items of this module, and a
//! compile may also run with no engine at all (`Engine::Internal`), in which
//! case the compiler's own maps answer every lookup.

use vstd::prelude::*;

use pyo3::types::{PyAnyMethods, PyDict, PyDictMethods, PyList, PyListMethods};
use pyo3::{Py, Python};

verus! {

#[verifier::external_type_specification]
#[verifier::external_body]
#[verifier::reject_recursive_types(T)]
pub struct ExPy<T>(Py<T>);

#[verifier::external_type_specification]
#[verifier::external_body]
pub struct ExPyDict(PyDict);

/// The persistent variable scope of the embedded Python interpreter; the
/// compiler holds it opaquely and reads it only through the wrappers below.
pub struct PyEngine {
    pub locals: Py<PyDict>,
}

/// Which engine answers lookups during a compile.
pub enum Engine {
    /// No scripting backend: the compiler's own maps are the whole scope.
    Internal,
    /// The embedded Python interpreter.
    Python(PyEngine),
}

/// The shape a named Python value exposes for matrix rendering: the
/// discrimination happens once, at this boundary.
pub enum PyKind {
    /// The name is not bound in the scope.
    Missing,
    /// The value exposes a two-dimensional `shape` attribute.
    Shaped,
    /// The value is a Python list.
    ListLike,
    /// Anything else: not renderable as a matrix.
    Other,
}

impl PyEngine {
    /// Relies on pyo3's `Python::with_gil` and `PyDict::new_bound`: makes a
    /// fresh, empty Python scope.
    #[verifier::external_body]
    pub(crate) fn new() -> PyEngine {
        Python::with_gil(|py| PyEngine { locals: PyDict::new_bound(py).unbind() })
    }
}

/// Relies on pyo3's `Python::run_bound`: executes the statements of a code
/// region against the engine's scope. Invalid UTF-8 in the region is
/// replaced, not rejected. An error is returned as the `str` rendering of
/// the raised exception value (pyo3's `Bound` display never fails, where
/// the exception's own display can).
#[verifier::external_body]
pub(crate) fn py_run(e: &PyEngine, code: &[u8]) -> Result<(), Vec<u8>> {
    Python::with_gil(|py| {
        let locals = e.locals.bind(py);
        let text = String::from_utf8_lossy(code).into_owned();
        match py.run_bound(&text, None, Some(locals)) {
            Ok(()) => Ok(()),
            Err(err) => Err(err.value_bound(py).to_string().into_bytes()),
        }
    })
}

/// Relies on pyo3's `Python::eval_bound`: evaluates one expression against
/// the engine's scope and renders the result with `str`. Invalid UTF-8 in
/// the expression is replaced, not rejected. An error is returned as the
/// `str` rendering of the raised exception value (pyo3's `Bound` display
/// never fails, where the exception's own display can).
#[verifier::external_body]
pub(crate) fn py_eval(e: &PyEngine, expr: &[u8]) -> Result<Vec<u8>, Vec<u8>> {
    Python::with_gil(|py| {
        let locals = e.locals.bind(py);
        let text = String::from_utf8_lossy(expr).into_owned();
        match py.eval_bound(&text, None, Some(locals)) {
            Ok(v) => Ok(v.to_string().into_bytes()),
            Err(err) => Err(err.value_bound(py).to_string().into_bytes()),
        }
    })
}

/// Relies on pyo3's dictionary lookup, `hasattr` and `is_instance_of`: tells
/// the shape of a named value apart, one variant per outcome.
#[verifier::external_body]
pub(crate) fn py_probe_kind(e: &PyEngine, name: &[u8]) -> PyKind {
    Python::with_gil(|py| {
        let key = String::from_utf8_lossy(name).into_owned();
        match e.locals.bind(py).get_item(key.as_str()) {
            Ok(Some(v)) if v.hasattr("shape").unwrap_or(false) => PyKind::Shaped,
            Ok(Some(v)) if v.is_instance_of::<PyList>() => PyKind::ListLike,
            Ok(Some(_)) => PyKind::Other,
            _ => PyKind::Missing,
        }
    })
}

/// Relies on pyo3's `getattr("shape")` and tuple indexing: the row and
/// column counts of an array-like value.
#[verifier::external_body]
pub(crate) fn py_shape_dims(e: &PyEngine, name: &[u8]) -> Option<(usize, usize)> {
    Python::with_gil(|py| {
        let locals = e.locals.bind(py);
        let key = String::from_utf8_lossy(name).into_owned();
        let v = locals.get_item(key.as_str()).ok()??;
        let shape = v.getattr("shape").ok()?;
        let rows = shape.get_item(0).ok()?.extract::<usize>().ok()?;
        let cols = shape.get_item(1).ok()?.extract::<usize>().ok()?;
        Some((rows, cols))
    })
}

/// Relies on pyo3's `get_item((i, j))` and `str`: one element of an
/// array-like value, rendered as text.
#[verifier::external_body]
pub(crate) fn py_elem2(e: &PyEngine, name: &[u8], i: usize, j: usize) -> Option<Vec<u8>> {
    Python::with_gil(|py| {
        let locals = e.locals.bind(py);
        let key = String::from_utf8_lossy(name).into_owned();
        let v = locals.get_item(key.as_str()).ok()??;
        let el = v.get_item((i, j)).ok()?;
        Some(el.to_string().into_bytes())
    })
}

/// Relies on pyo3's `PyList::len`: the length of a named list.
#[verifier::external_body]
pub(crate) fn py_list_len(e: &PyEngine, name: &[u8]) -> Option<usize> {
    Python::with_gil(|py| {
        let locals = e.locals.bind(py);
        let key = String::from_utf8_lossy(name).into_owned();
        let v = locals.get_item(key.as_str()).ok()??;
        let list = v.downcast::<PyList>().ok()?;
        Some(list.len())
    })
}

/// Relies on pyo3's `PyList::get_item` and `is_instance_of`: whether item
/// `i` of a named list is itself a list.
#[verifier::external_body]
pub(crate) fn py_list_item_is_list(e: &PyEngine, name: &[u8], i: usize) -> Option<bool> {
    Python::with_gil(|py| {
        let locals = e.locals.bind(py);
        let key = String::from_utf8_lossy(name).into_owned();
        let v = locals.get_item(key.as_str()).ok()??;
        let list = v.downcast::<PyList>().ok()?;
        let item = list.get_item(i).ok()?;
        Some(item.is_instance_of::<PyList>())
    })
}

/// Relies on pyo3's `PyList::get_item` and `str`: item `i` of a named list,
/// rendered as text.
#[verifier::external_body]
pub(crate) fn py_list_item_str(e: &PyEngine, name: &[u8], i: usize) -> Option<Vec<u8>> {
    Python::with_gil(|py| {
        let locals = e.locals.bind(py);
        let key = String::from_utf8_lossy(name).into_owned();
        let v = locals.get_item(key.as_str()).ok()??;
        let list = v.downcast::<PyList>().ok()?;
        let item = list.get_item(i).ok()?;
        Some(item.to_string().into_bytes())
    })
}

/// Relies on pyo3's `PyList::get_item` and `len`: the length of the sublist
/// at item `i` of a named list.
#[verifier::external_body]
pub(crate) fn py_sublist_len(e: &PyEngine, name: &[u8], i: usize) -> Option<usize> {
    Python::with_gil(|py| {
        let locals = e.locals.bind(py);
        let key = String::from_utf8_lossy(name).into_owned();
        let v = locals.get_item(key.as_str()).ok()??;
        let list = v.downcast::<PyList>().ok()?;
        let item = list.get_item(i).ok()?;
        let sub = item.downcast::<PyList>().ok()?;
        Some(sub.len())
    })
}

/// Relies on pyo3's `PyList::get_item` and `str`: element `j` of the sublist
/// at item `i` of a named list, rendered as text.
#[verifier::external_body]
pub(crate) fn py_sublist_item_str(e: &PyEngine, name: &[u8], i: usize, j: usize) -> Option<Vec<u8>> {
    Python::with_gil(|py| {
        let locals = e.locals.bind(py);
        let key = String::from_utf8_lossy(name).into_owned();
        let v = locals.get_item(key.as_str()).ok()??;
        let list = v.downcast::<PyList>().ok()?;
        let item = list.get_item(i).ok()?;
        let sub = item.downcast::<PyList>().ok()?;
        let el = sub.get_item(j).ok()?;
        Some(el.to_string().into_bytes())
    })
}

} // verus!

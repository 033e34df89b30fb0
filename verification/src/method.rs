//! HTTP request methods.

use vstd::prelude::*;

verus! {

/// A request method: one of the nine standard methods, or an extension token.
#[derive(Debug, PartialEq, Eq)]
pub enum HttpMethod {
    Options,
    Get,
    Post,
    Put,
    Delete,
    Head,
    Trace,
    Connect,
    Patch,
    Extension(String),
}

/// The mathematical value of a [`HttpMethod`]: the variant, with an extension's
/// token as a sequence of characters.
pub enum MethodView {
    Options,
    Get,
    Post,
    Put,
    Delete,
    Head,
    Trace,
    Connect,
    Patch,
    Extension(Seq<char>),
}

impl View for HttpMethod {
    type V = MethodView;

    open spec fn view(&self) -> MethodView {
        match self {
            HttpMethod::Options => MethodView::Options,
            HttpMethod::Get => MethodView::Get,
            HttpMethod::Post => MethodView::Post,
            HttpMethod::Put => MethodView::Put,
            HttpMethod::Delete => MethodView::Delete,
            HttpMethod::Head => MethodView::Head,
            HttpMethod::Trace => MethodView::Trace,
            HttpMethod::Connect => MethodView::Connect,
            HttpMethod::Patch => MethodView::Patch,
            HttpMethod::Extension(token) => MethodView::Extension(token@),
        }
    }
}

impl Clone for HttpMethod {
    fn clone(&self) -> (copy: HttpMethod)
        ensures
            copy@ == self@,
    {
        match self {
            HttpMethod::Options => HttpMethod::Options,
            HttpMethod::Get => HttpMethod::Get,
            HttpMethod::Post => HttpMethod::Post,
            HttpMethod::Put => HttpMethod::Put,
            HttpMethod::Delete => HttpMethod::Delete,
            HttpMethod::Head => HttpMethod::Head,
            HttpMethod::Trace => HttpMethod::Trace,
            HttpMethod::Connect => HttpMethod::Connect,
            HttpMethod::Patch => HttpMethod::Patch,
            HttpMethod::Extension(token) => HttpMethod::Extension(token.clone()),
        }
    }
}

impl HttpMethod {
    /// Whether two methods are the same method.
    pub fn same(&self, other: &HttpMethod) -> (equal: bool)
        ensures
            equal == (self@ == other@),
    {
        match (self, other) {
            (HttpMethod::Options, HttpMethod::Options) => true,
            (HttpMethod::Get, HttpMethod::Get) => true,
            (HttpMethod::Post, HttpMethod::Post) => true,
            (HttpMethod::Put, HttpMethod::Put) => true,
            (HttpMethod::Delete, HttpMethod::Delete) => true,
            (HttpMethod::Head, HttpMethod::Head) => true,
            (HttpMethod::Trace, HttpMethod::Trace) => true,
            (HttpMethod::Connect, HttpMethod::Connect) => true,
            (HttpMethod::Patch, HttpMethod::Patch) => true,
            (HttpMethod::Extension(a), HttpMethod::Extension(b)) => *a == *b,
            _ => false,
        }
    }
}

/// The views of a list of methods, in order.
pub open spec fn method_views(methods: Seq<HttpMethod>) -> Seq<MethodView> {
    Seq::new(methods.len(), |i: int| methods[i]@)
}

/// Whether `method` occurs in `methods`.
pub fn contains_method(methods: &Vec<HttpMethod>, method: &HttpMethod) -> (found: bool)
    ensures
        found == method_views(methods@).contains(method@),
{
    let mut i: usize = 0;
    while i < methods.len()
        invariant
            i <= methods.len(),
            forall|j: int| 0 <= j < i ==> method_views(methods@)[j] != method@,
        decreases methods.len() - i,
    {
        if methods[i].same(method) {
            assert(method_views(methods@)[i as int] == method@);
            return true;
        }
        i += 1;
    }
    false
}

/// A copy of a list of methods.
pub fn clone_methods(methods: &Vec<HttpMethod>) -> (copy: Vec<HttpMethod>)
    ensures
        method_views(copy@) == method_views(methods@),
{
    let mut copy: Vec<HttpMethod> = Vec::new();
    let mut i: usize = 0;
    while i < methods.len()
        invariant
            i <= methods.len(),
            copy.len() == i,
            forall|j: int| 0 <= j < i ==> copy@[j]@ == methods@[j]@,
        decreases methods.len() - i,
    {
        copy.push(methods[i].clone());
        i += 1;
    }
    assert(method_views(copy@) =~= method_views(methods@));
    copy
}

} // verus!

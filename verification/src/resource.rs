//! Resources: an entry of the route table that hands each request to the
//! handler of its method, or answers it by default.
use vstd::prelude::*;

verus! {

/// HTTP request methods.
#[derive(PartialEq, Eq, Structural, Debug, Clone, Copy)]
pub enum Method {
    /// GET
    Get,
    /// POST
    Post,
    /// PUT
    Put,
    /// DELETE
    Delete,
    /// HEAD
    Head,
    /// OPTIONS
    Options,
    /// CONNECT
    Connect,
    /// PATCH
    Patch,
    /// TRACE
    Trace,
}

/// Status of the default answer of a resource: method not allowed.
pub const METHOD_NOT_ALLOWED: u16 = 405;

/// Status of the default answer of the not-found resource.
pub const NOT_FOUND: u16 = 404;

/// The routes of a resource by method, from its list of (method, handler)
/// pairs.
pub open spec fn routes_map<H>(routes: Seq<(Method, H)>) -> Map<Method, H>
    decreases routes.len(),
{
    if routes.len() == 0 {
        Map::empty()
    } else {
        routes_map(routes.drop_last()).insert(routes.last().0, routes.last().1)
    }
}

/// Http resource: a name, a handler per method, and the status of the
/// answer to the other methods.
pub struct Resource<H> {
    name: String,
    routes: Vec<(Method, H)>,
    default: u16,
}

impl<H> Resource<H> {
    /// The handler of each method that has one.
    pub closed spec fn routes(&self) -> Map<Method, H> {
        routes_map(self.routes@)
    }

    /// The resource's name.
    pub closed spec fn name_spec(&self) -> Seq<char> {
        self.name@
    }

    /// The status of the answer to methods with no handler.
    pub closed spec fn default_status(&self) -> u16 {
        self.default
    }

    /// A resource with no name and no handler, answering every method with
    /// "method not allowed".
    pub fn new() -> (r: Self)
        ensures
            r.routes() == Map::<Method, H>::empty(),
            r.name_spec() == Seq::<char>::empty(),
            r.default_status() == METHOD_NOT_ALLOWED,
    {
        let r = Resource { name: String::new(), routes: Vec::new(), default: METHOD_NOT_ALLOWED };
        assert(r.routes() =~= Map::<Method, H>::empty());
        r
    }

    /// The resource for paths that match no other: no handler, answering
    /// every request with "not found".
    pub fn default_not_found() -> (r: Self)
        ensures
            r.routes() == Map::<Method, H>::empty(),
            r.name_spec() == Seq::<char>::empty(),
            r.default_status() == NOT_FOUND,
    {
        let r = Resource { name: String::new(), routes: Vec::new(), default: NOT_FOUND };
        assert(r.routes() =~= Map::<Method, H>::empty());
        r
    }

    /// Set resource name
    pub fn name(&mut self, name: String)
        ensures
            final(self).name_spec() == name@,
            final(self).routes() == old(self).routes(),
            final(self).default_status() == old(self).default_status(),
    {
        self.name = name;
    }

    /// Register handler for specified method: it replaces the method's
    /// handler, if any.
    pub fn handler(&mut self, method: Method, handler: H)
        ensures
            final(self).routes() == old(self).routes().insert(method, handler),
            final(self).name_spec() == old(self).name_spec(),
            final(self).default_status() == old(self).default_status(),
    {
        self.routes.push((method, handler));
        proof {
            assert(self.routes@.drop_last() =~= old(self).routes@);
        }
    }

    /// Register handler for `GET` method.
    pub fn get(&mut self, handler: H)
        ensures
            final(self).routes() == old(self).routes().insert(Method::Get, handler),
            final(self).name_spec() == old(self).name_spec(),
            final(self).default_status() == old(self).default_status(),
    {
        self.handler(Method::Get, handler)
    }

    /// Register handler for `POST` method.
    pub fn post(&mut self, handler: H)
        ensures
            final(self).routes() == old(self).routes().insert(Method::Post, handler),
            final(self).name_spec() == old(self).name_spec(),
            final(self).default_status() == old(self).default_status(),
    {
        self.handler(Method::Post, handler)
    }

    /// Register handler for `PUT` method.
    pub fn put(&mut self, handler: H)
        ensures
            final(self).routes() == old(self).routes().insert(Method::Put, handler),
            final(self).name_spec() == old(self).name_spec(),
            final(self).default_status() == old(self).default_status(),
    {
        self.handler(Method::Put, handler)
    }

    /// Register handler for `DELETE` method.
    pub fn delete(&mut self, handler: H)
        ensures
            final(self).routes() == old(self).routes().insert(Method::Delete, handler),
            final(self).name_spec() == old(self).name_spec(),
            final(self).default_status() == old(self).default_status(),
    {
        self.handler(Method::Delete, handler)
    }

    /// Handles a request by its method: the method's handler when it has
    /// one, else the default answer's status.
    pub fn handle(&self, method: Method) -> (r: Result<&H, u16>)
        ensures
            match r {
                Ok(h) => self.routes().contains_key(method) && *h == self.routes()[method],
                Err(status) => !self.routes().contains_key(method) && status
                    == self.default_status(),
            },
    {
        let mut i = self.routes.len();
        proof {
            assert(self.routes@.take(i as int) =~= self.routes@);
        }
        while i > 0
            invariant
                i <= self.routes@.len(),
                routes_map(self.routes@) == self.routes(),
                forall|j: int| i <= j < self.routes@.len() ==> self.routes@[j].0 != method,
                routes_map(self.routes@.take(i as int)).contains_key(method) == self.routes().contains_key(method),
                routes_map(self.routes@.take(i as int)).contains_key(method) ==> routes_map(self.routes@.take(i as int))[method] == self.routes()[method],
            decreases i,
        {
            proof {
                assert(self.routes@.take(i as int).drop_last() =~= self.routes@.take(i - 1));
                assert(self.routes@.take(i as int).last() == self.routes@[i - 1]);
            }
            if self.routes[i - 1].0 == method {
                return Ok(&self.routes[i - 1].1);
            }
            i -= 1;
        }
        proof {
            assert(self.routes@.take(0) =~= Seq::<(Method, H)>::empty());
        }
        Err(self.default)
    }
}

impl<H> Default for Resource<H> {
    /// A resource with no name and no handler, answering every method with
    /// "method not allowed".
    fn default() -> (r: Self)
        ensures
            r.routes() == Map::<Method, H>::empty(),
            r.name_spec() == Seq::<char>::empty(),
            r.default_status() == METHOD_NOT_ALLOWED,
    {
        Self::new()
    }
}

/// Law: the handler registered last for a method is the one that handles
/// its requests, and registering it leaves the other methods' handlers as
/// they were.
pub proof fn law_handler_read_after_write<H>(routes: Map<Method, H>, method: Method, handler: H, other: Method)
    requires
        other != method,
    ensures
        routes.insert(method, handler).contains_key(method),
        routes.insert(method, handler)[method] == handler,
        routes.insert(method, handler).contains_key(other) == routes.contains_key(other),
        routes.contains_key(other) ==> routes.insert(method, handler)[other] == routes[other],
{
}

} // verus!

//! Calls and replies.

use vstd::prelude::*;

verus! {

/// A successful method call reply.
#[derive(Debug)]
pub struct Reply<Params> {
    parameters: Params,
    continues: Option<bool>,
}

impl<Params> Reply<Params> {
    /// The parameters of the reply.
    pub closed spec fn spec_parameters(self) -> Params {
        self.parameters
    }

    /// Whether the reply says that more follow.
    pub closed spec fn spec_continues(self) -> Option<bool> {
        self.continues
    }

    /// A reply with the given parameters, saying whether more follow.
    pub fn new(parameters: Params, continues: Option<bool>) -> (r: Self)
        ensures
            r.spec_parameters() == parameters,
            r.spec_continues() == continues,
    {
        Reply { parameters, continues }
    }

    /// The parameters of the reply.
    pub fn parameters(&self) -> (r: &Params)
        ensures
            *r == self.spec_parameters(),
    {
        &self.parameters
    }

    /// If there are more replies to come.
    pub fn continues(&self) -> (r: Option<bool>)
        ensures
            r == self.spec_continues(),
    {
        self.continues
    }

    /// The parameters, and whether more replies follow.
    pub fn into_parts(self) -> (r: (Params, Option<bool>))
        ensures
            r == (self.spec_parameters(), self.spec_continues()),
    {
        (self.parameters, self.continues)
    }
}

/// A method call.
#[derive(Debug)]
pub struct Call<M> {
    method: M,
    one_way: Option<bool>,
    more: Option<bool>,
    upgrade: Option<bool>,
}

impl<M> Call<M> {
    /// The method call name and parameters.
    pub closed spec fn spec_method(self) -> M {
        self.method
    }

    /// The oneway flag, if given.
    pub closed spec fn spec_one_way(self) -> Option<bool> {
        self.one_way
    }

    /// The more flag, if given.
    pub closed spec fn spec_more(self) -> Option<bool> {
        self.more
    }

    /// The upgrade flag, if given.
    pub closed spec fn spec_upgrade(self) -> Option<bool> {
        self.upgrade
    }

    /// A call of the given method with the given flags.
    pub fn new(method: M, one_way: Option<bool>, more: Option<bool>, upgrade: Option<bool>) -> (r:
        Self)
        ensures
            r.spec_method() == method,
            r.spec_one_way() == one_way,
            r.spec_more() == more,
            r.spec_upgrade() == upgrade,
    {
        Call { method, one_way, more, upgrade }
    }

    /// The method call name and parameters.
    pub fn method(&self) -> (r: &M)
        ensures
            *r == self.spec_method(),
    {
        &self.method
    }

    /// If the method call doesn't want a reply.
    pub fn one_way(&self) -> (r: Option<bool>)
        ensures
            r == self.spec_one_way(),
    {
        self.one_way
    }

    /// If the method call is requesting more replies.
    pub fn more(&self) -> (r: Option<bool>)
        ensures
            r == self.spec_more(),
    {
        self.more
    }

    /// If the method call is requesting an upgrade to a different protocol.
    pub fn upgrade(&self) -> (r: Option<bool>)
        ensures
            r == self.spec_upgrade(),
    {
        self.upgrade
    }

    /// The method and the flags.
    pub fn into_parts(self) -> (r: (M, Option<bool>, Option<bool>, Option<bool>))
        ensures
            r == (self.spec_method(), self.spec_one_way(), self.spec_more(), self.spec_upgrade()),
    {
        (self.method, self.one_way, self.more, self.upgrade)
    }
}

} // verus!

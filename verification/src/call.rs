//! Method calls.
//!
//! A call is a method (its name and parameters, of a type that the user chooses) and three flags.
//! In JSON the method's own entries and the flags stand side by side in one object; a flag is
//! written only when it is set.

use vstd::prelude::*;
use crate::text::str_eq;

verus! {

/// A flag of a method call.
#[derive(Debug, Clone, Copy, PartialEq, Eq)]
pub enum CallFlag {
    /// The call wants no reply.
    Oneway,
    /// The call asks for more than one reply.
    More,
    /// The call asks to upgrade the connection to another protocol.
    Upgrade,
}

/// The JSON key of a flag.
pub open spec fn flag_key_spec(f: CallFlag) -> Seq<char> {
    match f {
        CallFlag::Oneway => "oneway"@,
        CallFlag::More => "more"@,
        CallFlag::Upgrade => "upgrade"@,
    }
}

/// The JSON key of a flag.
pub fn flag_key(f: CallFlag) -> (r: &'static str)
    ensures
        r@ == flag_key_spec(f),
{
    match f {
        CallFlag::Oneway => "oneway",
        CallFlag::More => "more",
        CallFlag::Upgrade => "upgrade",
    }
}

/// The flag that a JSON key names, if it names one; other keys belong to the method.
pub fn flag_of_key(key: &str) -> (r: Option<CallFlag>)
    ensures
        r matches Some(f) ==> key@ == flag_key_spec(f),
        r is None ==> key@ != flag_key_spec(CallFlag::Oneway) && key@ != flag_key_spec(
            CallFlag::More,
        ) && key@ != flag_key_spec(CallFlag::Upgrade),
{
    if str_eq(key, flag_key(CallFlag::Oneway)) {
        Some(CallFlag::Oneway)
    } else if str_eq(key, flag_key(CallFlag::More)) {
        Some(CallFlag::More)
    } else if str_eq(key, flag_key(CallFlag::Upgrade)) {
        Some(CallFlag::Upgrade)
    } else {
        None
    }
}

/// A method call.
#[derive(Debug, Clone)]
pub struct Call<M> {
    method: M,
    oneway: bool,
    more: bool,
    upgrade: bool,
}

impl<M> Call<M> {
    /// The method call name and parameters.
    pub closed spec fn spec_method(self) -> M {
        self.method
    }

    /// Whether the call wants no reply.
    pub closed spec fn spec_oneway(self) -> bool {
        self.oneway
    }

    /// Whether the call asks for more replies.
    pub closed spec fn spec_more(self) -> bool {
        self.more
    }

    /// Whether the call asks for an upgrade.
    pub closed spec fn spec_upgrade(self) -> bool {
        self.upgrade
    }

    /// The value of a flag.
    pub open spec fn spec_flag(self, f: CallFlag) -> bool {
        match f {
            CallFlag::Oneway => self.spec_oneway(),
            CallFlag::More => self.spec_more(),
            CallFlag::Upgrade => self.spec_upgrade(),
        }
    }

    /// Create a new method call, with no flag set.
    pub fn new(method: M) -> (r: Self)
        ensures
            r.spec_method() == method,
            !r.spec_oneway(),
            !r.spec_more(),
            !r.spec_upgrade(),
    {
        Self { method, oneway: false, more: false, upgrade: false }
    }

    /// Set the oneway flag.
    pub fn set_oneway(self, oneway: bool) -> (r: Self)
        ensures
            r.spec_method() == self.spec_method(),
            r.spec_oneway() == oneway,
            r.spec_more() == self.spec_more(),
            r.spec_upgrade() == self.spec_upgrade(),
    {
        Self { oneway, ..self }
    }

    /// Set the more flag.
    pub fn set_more(self, more: bool) -> (r: Self)
        ensures
            r.spec_method() == self.spec_method(),
            r.spec_oneway() == self.spec_oneway(),
            r.spec_more() == more,
            r.spec_upgrade() == self.spec_upgrade(),
    {
        Self { more, ..self }
    }

    /// Set the upgrade flag.
    pub fn set_upgrade(self, upgrade: bool) -> (r: Self)
        ensures
            r.spec_method() == self.spec_method(),
            r.spec_oneway() == self.spec_oneway(),
            r.spec_more() == self.spec_more(),
            r.spec_upgrade() == upgrade,
    {
        Self { upgrade, ..self }
    }

    /// Set a flag.
    pub fn set_flag(self, f: CallFlag, value: bool) -> (r: Self)
        ensures
            r.spec_method() == self.spec_method(),
            r.spec_flag(f) == value,
            forall|g: CallFlag| g != f ==> r.spec_flag(g) == self.spec_flag(g),
    {
        match f {
            CallFlag::Oneway => self.set_oneway(value),
            CallFlag::More => self.set_more(value),
            CallFlag::Upgrade => self.set_upgrade(value),
        }
    }

    /// The method call name and parameters.
    pub fn method(&self) -> (r: &M)
        ensures
            *r == self.spec_method(),
    {
        &self.method
    }

    /// Takes the method out of the call.
    pub fn into_method(self) -> (r: M)
        ensures
            r == self.spec_method(),
    {
        self.method
    }

    /// If the method call doesn't want a reply.
    pub fn oneway(&self) -> (r: bool)
        ensures
            r == self.spec_oneway(),
    {
        self.oneway
    }

    /// If the method call is requesting more replies.
    pub fn more(&self) -> (r: bool)
        ensures
            r == self.spec_more(),
    {
        self.more
    }

    /// If the method call is requesting an upgrade to a different protocol.
    pub fn upgrade(&self) -> (r: bool)
        ensures
            r == self.spec_upgrade(),
    {
        self.upgrade
    }

    /// Builds a call from its method and the flag entries read from its JSON form, in the order
    /// they came. A flag takes the value of its last entry, and is unset when it has none.
    pub fn from_flag_entries(method: M, entries: &[(CallFlag, bool)]) -> (r: Self)
        ensures
            r.spec_method() == method,
            forall|f: CallFlag| r.spec_flag(f) == flag_value(entries@, f),
    {
        let mut call = Self::new(method);
        let n = entries.len();
        for k in 0..n
            invariant
                n == entries@.len(),
                call.spec_method() == method,
                forall|f: CallFlag| call.spec_flag(f) == flag_value(entries@.subrange(0, k as int), f),
        {
            let (f, value) = entries[k];
            call = call.set_flag(f, value);
            proof {
                let prefix = entries@.subrange(0, k + 1);
                assert(prefix.drop_last() =~= entries@.subrange(0, k as int));
                assert(prefix.last() == entries@[k as int]);
            }
        }
        assert(entries@.subrange(0, n as int) =~= entries@);
        call
    }

    /// The flags that the JSON form of the call holds: those that are set, in the order oneway,
    /// more, upgrade. Each is written with the value `true`.
    pub fn set_flags(&self) -> (r: Vec<CallFlag>)
        ensures
            r@ == flags_written(self.spec_oneway(), self.spec_more(), self.spec_upgrade()),
    {
        let mut r: Vec<CallFlag> = Vec::new();
        if self.oneway {
            r.push(CallFlag::Oneway);
        }
        if self.more {
            r.push(CallFlag::More);
        }
        if self.upgrade {
            r.push(CallFlag::Upgrade);
        }
        proof {
            let expected = flags_written(self.spec_oneway(), self.spec_more(), self.spec_upgrade());
            assert(r@ =~= expected);
        }
        r
    }
}

/// The flags written for a call: those set, in the order oneway, more, upgrade.
pub open spec fn flags_written(oneway: bool, more: bool, upgrade: bool) -> Seq<CallFlag> {
    (if oneway {
        seq![CallFlag::Oneway]
    } else {
        seq![]
    }) + (if more {
        seq![CallFlag::More]
    } else {
        seq![]
    }) + (if upgrade {
        seq![CallFlag::Upgrade]
    } else {
        seq![]
    })
}

/// The value a flag takes from a sequence of flag entries: that of its last entry, or unset.
pub open spec fn flag_value(entries: Seq<(CallFlag, bool)>, f: CallFlag) -> bool
    decreases entries.len(),
{
    if entries.len() == 0 {
        false
    } else if entries.last().0 == f {
        entries.last().1
    } else {
        flag_value(entries.drop_last(), f)
    }
}

/// The flag entries that the JSON form of a call holds: each flag written, with the value `true`.
pub open spec fn written_entries(oneway: bool, more: bool, upgrade: bool) -> Seq<(CallFlag, bool)> {
    flags_written(oneway, more, upgrade).map_values(|f: CallFlag| (f, true))
}

/// A call read back from the flag entries that its JSON form holds has the flags of the call
/// written: reading the entries gives each flag its value, set or unset.
pub proof fn law_call_flags_read_back<M>(call: Call<M>)
    ensures
        forall|f: CallFlag|
            flag_value(
                #[trigger] written_entries(call.spec_oneway(), call.spec_more(), call.spec_upgrade()),
                f,
            ) == call.spec_flag(f),
{
    let o = call.spec_oneway();
    let m = call.spec_more();
    let u = call.spec_upgrade();
    let e = written_entries(o, m, u);
    assert forall|f: CallFlag| flag_value(e, f) == call.spec_flag(f) by {
        let a: Seq<(CallFlag, bool)> = if o { seq![(CallFlag::Oneway, true)] } else { seq![] };
        let b: Seq<(CallFlag, bool)> = if m { seq![(CallFlag::More, true)] } else { seq![] };
        let c: Seq<(CallFlag, bool)> = if u { seq![(CallFlag::Upgrade, true)] } else { seq![] };
        assert(e =~= a + b + c);
        reveal_with_fuel(flag_value, 4);
        if u {
            assert((a + b + c).drop_last() =~= a + b);
        } else {
            assert(a + b + c =~= a + b);
        }
        if m {
            assert((a + b).drop_last() =~= a);
        } else {
            assert(a + b =~= a);
        }
        if o {
            assert(a.drop_last() =~= Seq::<(CallFlag, bool)>::empty());
        }
    }
}

/// Distinct flags have distinct JSON keys, so that a key names at most one flag.
pub proof fn law_flag_keys_distinct(f: CallFlag, g: CallFlag)
    ensures
        flag_key_spec(f) == flag_key_spec(g) ==> f == g,
{
    reveal_strlit("oneway");
    reveal_strlit("more");
    reveal_strlit("upgrade");
    if f != g {
        assert(flag_key_spec(f).len() != flag_key_spec(g).len());
    }
}

impl<M> From<M> for Call<M> {
    /// A call of the method, with no flag set.
    fn from(method: M) -> (r: Self)
        ensures
            r.spec_method() == method,
            !r.spec_oneway(),
            !r.spec_more(),
            !r.spec_upgrade(),
    {
        Self::new(method)
    }
}

impl<M> vstd::std_specs::convert::FromSpecImpl<M> for Call<M> {
    open spec fn obeys_from_spec() -> bool {
        true
    }

    closed spec fn from_spec(v: M) -> Self {
        Call { method: v, oneway: false, more: false, upgrade: false }
    }
}

} // verus!

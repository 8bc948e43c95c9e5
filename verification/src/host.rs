//! The functions that a host lends to programs.

use vstd::prelude::*;
use crate::tables::{Named, find_last, place};
use crate::text::{concat3, concat_num, decimal};
use crate::value::Value;

verus! {

/// Why a host function failed.
#[derive(Debug, Clone, PartialEq, Eq)]
pub struct HostError {
    pub code: u32,
    pub msg: String,
}

impl HostError {
    pub fn new(code: u32, msg: String) -> (r: HostError)
        ensures
            r.code == code,
            r.msg == msg,
    {
        HostError { code, msg }
    }

    /// The arguments were not what the function takes.
    pub fn invalid_args(msg: String) -> (r: HostError)
        ensures
            r.code == 1,
            r.msg == msg,
    {
        HostError { code: 1, msg }
    }

    /// The function gave up.
    pub fn aborted(msg: String) -> (r: HostError)
        ensures
            r.code == 2,
            r.msg == msg,
    {
        HostError { code: 2, msg }
    }

    /// The printed form.
    pub fn to_string(&self) -> (r: String)
        ensures
            r@ == "host error "@ + decimal(self.code as nat) + ": "@ + self.msg@,
    {
        let mut r = concat_num("host error ", self.code as u128, ": ");
        r.append(self.msg.as_str());
        r
    }
}

/// Host functions by name; a later one hides an earlier one of its name.
#[derive(Debug)]
pub struct Host<F> {
    pub funcs: Vec<(String, F)>,
}

/// Whether a host function may be called on these arguments.
pub open spec fn callable<F: Fn(&[Value]) -> Result<Value, HostError>>(h: Host<F>, args: &[Value]) -> bool {
    forall|k: int| 0 <= k < h.funcs@.len() ==> call_requires((#[trigger] h.funcs@[k]).1, (args,))
}

impl<F: Fn(&[Value]) -> Result<Value, HostError>> Host<F> {
    pub fn new() -> (r: Host<F>)
        ensures
            r.funcs@.len() == 0,
    {
        Host { funcs: Vec::new() }
    }

    /// Binds a name to a function, in place of an earlier one.
    pub fn bind(&mut self, name: String, f: F)
        ensures
            final(self).funcs@ == old(self).funcs@.push((name, f)),
    {
        self.funcs.push((name, f));
    }

    pub fn has(&self, name: &str) -> (r: bool)
        ensures
            r == (place(self.funcs@, name@) is Some),
    {
        find_last(&self.funcs, name).is_some()
    }

    /// Calls the function bound to a name.
    pub fn call(&self, name: &str, args: &[Value]) -> (r: Result<Value, HostError>)
        requires
            callable(*self, args),
        ensures
            match place(self.funcs@, name@) {
                Some(k) => call_ensures(self.funcs@[k].1, (args,), r),
                None => match r {
                    Ok(_) => false,
                    Err(e) => e.code == 0 && e.msg@ == "no host impl bound for '"@ + name@ + "'"@,
                },
            },
    {
        match find_last(&self.funcs, name) {
            Some(k) => {
                let f = &self.funcs[k].1;
                f(args)
            },
            None => Err(HostError::new(0, concat3("no host impl bound for '", name, "'"))),
        }
    }
}

/// After a name is bound, it is found, and a call by it is a call of the function
/// that was bound; the other names are as before.
pub proof fn bound_names_are_found<F>(h: Seq<(String, F)>, name: String, f: F, other: Seq<char>)
    ensures
        place(h.push((name, f)), name@) == Some(h.len() as int),
        other != name@ ==> place(h.push((name, f)), other) == place(h, other),
{
    let s = h.push((name, f));
    assert(s.drop_last() =~= h);
    assert(s.last().nm() == name@);
}

} // verus!

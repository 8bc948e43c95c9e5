//! Checking a module and running its `main`.

use vstd::prelude::*;
use crate::ast::Module;
use crate::bc::BcModule;
use crate::compile::{byte_lists, compile, compiles};
use crate::effects::EffectTable;
use crate::engine::{classes_alone, front_error, frontend, TypedModule};
use crate::error::Error;
use crate::interp::{call, call_of, Ran};
use crate::machine::{fresh, Halt, Machine, Reply, Setting, Stop};
use crate::value::{value_view, Value, ValueView};

verus! {

/// What calling the `main` of a module gives, with a block of zeros.
pub open spec fn main_of(m: &Module, replies: &Vec<Reply>, sender: &Value, fuel: nat) -> Ran<ValueView> {
    let cx = Setting { module: m, replies, sender, block_timestamp: 0, block_number: 0 };
    call_of(cx, fuel, "main"@, seq![], fresh())
}

/// Checks a module and interprets its `main`. The replies answer, in order, what the
/// program asks of storage and of the host; where one is missing the result names
/// the request.
pub fn run(t: &TypedModule, replies: &Vec<Reply>, sender: &Value, fuel: u64) -> (r: Result<Value, Halt>)
    ensures
        exists|c: EffectTable| #[trigger]
            classes_alone(t.module, c) && match front_error(t.checked, t.module, c) {
                Some(e) => r matches Err(h) && h@ == Stop::Fail(e),
                None => match main_of(&t.module, replies, sender, fuel as nat) {
                    Ok((v, _)) => r matches Ok(x) && value_view(x) == v,
                    Err(s) => r matches Err(h) && h@ == s,
                },
            },
{
    match frontend(&t.module, &t.checked) {
        Ok(_) => {},
        Err(e) => return Err(Halt::Fail(e)),
    }
    let cx = Setting { module: &t.module, replies, sender, block_timestamp: 0, block_number: 0 };
    let mut m = Machine::new();
    let args: Vec<Value> = Vec::new();
    assert(crate::value::views(args@) =~= seq![]);
    call(&cx, fuel, "main", args, &mut m)
}

/// Checks a module and compiles it for a machine that runs its `main`.
pub fn run_bc(t: &TypedModule) -> (r: Result<BcModule, Error>)
    ensures
        exists|c: EffectTable| #[trigger]
            classes_alone(t.module, c) && match front_error(t.checked, t.module, c) {
                Some(x) => r matches Err(e) && e@ == x,
                None => compiles(&t.module, "main"@, seq![], t.plan@, byte_lists(t.defaults@), r),
            },
{
    match frontend(&t.module, &t.checked) {
        Ok(_) => {},
        Err(e) => return Err(e),
    }
    compile(&t.module, &t.plan, &t.defaults)
}

} // verus!

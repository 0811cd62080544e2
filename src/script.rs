use crate::account_address::AccountAddress;
use vstd::prelude::*;

verus! {

/// Length in bytes of a script hash.
pub const SCRIPT_HASH_LENGTH: usize = 32;

/// A type argument of a script.
#[derive(Debug, Clone, Copy, PartialEq, Eq, Hash)]
pub enum TypeTag {
    Bool,
    U8,
    U64,
    U128,
    Address,
}

/// An argument of a script.
#[derive(Debug, Clone, PartialEq, Eq, Hash)]
pub enum TransactionArgument {
    U64(u64),
    Address(AccountAddress),
    ByteArray(Vec<u8>),
    Bool(bool),
}

/// A script: code, type arguments and arguments.
#[derive(Debug, Clone, PartialEq, Eq, Hash, Default)]
pub struct Script {
    pub code: Vec<u8>,
    pub ty_args: Vec<TypeTag>,
    pub args: Vec<TransactionArgument>,
}

impl Script {
    pub fn new(code: Vec<u8>, ty_args: Vec<TypeTag>, args: Vec<TransactionArgument>) -> (r: Script)
        ensures
            r.code@ == code@,
            r.ty_args@ == ty_args@,
            r.args@ == args@,
    {
        Script { code, ty_args, args }
    }

    pub fn code(&self) -> (r: &Vec<u8>)
        ensures
            r@ == self.code@,
    {
        &self.code
    }

    pub fn ty_args(&self) -> (r: &Vec<TypeTag>)
        ensures
            r@ == self.ty_args@,
    {
        &self.ty_args
    }

    pub fn args(&self) -> (r: &Vec<TransactionArgument>)
        ensures
            r@ == self.args@,
    {
        &self.args
    }

    /// The code and the arguments; the type arguments are dropped.
    pub fn into_inner(self) -> (r: (Vec<u8>, Vec<TransactionArgument>))
        ensures
            r.0@ == self.code@,
            r.1@ == self.args@,
    {
        (self.code, self.args)
    }
}

} // verus!

use vstd::prelude::*;
use crate::identity::Identity;

verus! {

/// A storage region handed to an operation: who it is, who owns it, and the
/// bytes it holds.
#[derive(Clone, Debug, PartialEq, Eq)]
pub struct AccountInfo {
    pub key: Identity,
    pub owner: Identity,
    pub data: Vec<u8>,
}

pub ghost struct AccountInfoView {
    pub key: Seq<u8>,
    pub owner: Seq<u8>,
    pub data: Seq<u8>,
}

impl View for AccountInfo {
    type V = AccountInfoView;

    open spec fn view(&self) -> AccountInfoView {
        AccountInfoView { key: self.key@, owner: self.owner@, data: self.data@ }
    }
}

/// The views of a list of accounts, in order.
pub open spec fn accounts_view(accounts: Seq<AccountInfo>) -> Seq<AccountInfoView> {
    Seq::new(accounts.len(), |i: int| accounts[i]@)
}

/// Overwrites the start of `data` with `bytes` and leaves the rest as it is.
pub fn write_prefix(data: &mut Vec<u8>, bytes: &Vec<u8>)
    requires
        bytes@.len() <= old(data)@.len(),
    ensures
        final(data)@ == bytes@ + old(data)@.subrange(bytes@.len() as int, old(data)@.len() as int),
{
    let count: usize = bytes.len();
    let mut i: usize = 0;
    while i < count
        invariant
            i <= count == bytes@.len(),
            data@.len() == old(data)@.len() >= count,
            forall|k: int| 0 <= k < i ==> data@[k] == bytes@[k],
            forall|k: int| i <= k < data@.len() ==> data@[k] == old(data)@[k],
        decreases count - i,
    {
        data.set(i, bytes[i]);
        i += 1;
    }
    assert(data@ =~= bytes@ + old(data)@.subrange(bytes@.len() as int, old(data)@.len() as int));
}

/// One account that a request names, and how the callee may use it.
#[derive(Clone, Copy, Debug, PartialEq, Eq)]
pub struct AccountMeta {
    pub pubkey: Identity,
    pub is_signer: bool,
    pub is_writable: bool,
}

pub ghost struct AccountMetaView {
    pub pubkey: Seq<u8>,
    pub is_signer: bool,
    pub is_writable: bool,
}

impl View for AccountMeta {
    type V = AccountMetaView;

    open spec fn view(&self) -> AccountMetaView {
        AccountMetaView {
            pubkey: self.pubkey@,
            is_signer: self.is_signer,
            is_writable: self.is_writable,
        }
    }
}

/// A request to another program.
#[derive(Clone, Debug, PartialEq, Eq)]
pub struct Instruction {
    pub program_id: Identity,
    pub accounts: Vec<AccountMeta>,
    pub data: Vec<u8>,
}

pub ghost struct InstructionView {
    pub program_id: Seq<u8>,
    pub accounts: Seq<AccountMetaView>,
    pub data: Seq<u8>,
}

impl View for Instruction {
    type V = InstructionView;

    open spec fn view(&self) -> InstructionView {
        InstructionView {
            program_id: self.program_id@,
            accounts: Seq::new(self.accounts@.len(), |i: int| self.accounts@[i]@),
            data: self.data@,
        }
    }
}

/// A request together with the keys of the accounts that the host passes
/// along with it.
#[derive(Clone, Debug, PartialEq, Eq)]
pub struct Invocation {
    pub instruction: Instruction,
    pub accounts: Vec<Identity>,
}

pub ghost struct InvocationView {
    pub instruction: InstructionView,
    pub accounts: Seq<Seq<u8>>,
}

impl View for Invocation {
    type V = InvocationView;

    open spec fn view(&self) -> InvocationView {
        InvocationView {
            instruction: self.instruction@,
            accounts: Seq::new(self.accounts@.len(), |i: int| self.accounts@[i]@),
        }
    }
}

impl Invocation {
    /// Pairs a request with the keys of the accounts that go with it.
    pub fn new(instruction: Instruction, accounts: Vec<Identity>) -> (step: Invocation)
        ensures
            step@ == (InvocationView {
                instruction: instruction@,
                accounts: Seq::new(accounts@.len(), |i: int| accounts@[i]@),
            }),
    {
        Invocation { instruction, accounts }
    }
}

/// The views of a list of invocations, in the order in which the host is to
/// perform them.
pub open spec fn invocations_view(list: Seq<Invocation>) -> Seq<InvocationView> {
    Seq::new(list.len(), |i: int| list[i]@)
}

/// The view of what an operation answers: the invocations to perform, or the
/// refusal.
pub open spec fn outcome_view<E>(r: Result<Vec<Invocation>, E>) -> Result<
    Seq<InvocationView>,
    E,
> {
    match r {
        Ok(list) => Ok(invocations_view(list@)),
        Err(e) => Err(e),
    }
}

} // verus!

//! The four operations of a target's bundle, and the signers it needs.

use vstd::prelude::*;
use crate::address::{
    accepted_token_program, address_from_text, associated_holding, decode_hex, hex_decoding,
    hex_digit_value, holding_of, holding_program_bytes, rent_sysvar_bytes, system_program_bytes,
    token_program_bytes,
    parse_address, rent_sysvar_address, system_program_address, token_program_address, Address,
};

verus! {

/// One account that an operation reads or writes.
#[derive(Debug, Clone, Copy, PartialEq, Eq)]
pub struct AccountRef {
    pub address: Address,
    pub is_signer: bool,
    pub is_writable: bool,
}

impl View for AccountRef {
    type V = (Seq<u8>, bool, bool);

    open spec fn view(&self) -> (Seq<u8>, bool, bool) {
        (self.address@, self.is_signer, self.is_writable)
    }
}

/// One step of a bundle: a program, the accounts it touches, in order, and
/// its payload.
#[derive(Debug, Clone, PartialEq, Eq)]
pub struct Operation {
    pub program: Address,
    pub accounts: Vec<AccountRef>,
    pub payload: Vec<u8>,
}

pub open spec fn accounts_view(op: Operation) -> Seq<(Seq<u8>, bool, bool)> {
    op.accounts@.map_values(|a: AccountRef| a@)
}

pub open spec fn writable(a: Seq<u8>, signer: bool) -> (Seq<u8>, bool, bool) {
    (a, signer, true)
}

pub open spec fn readonly(a: Seq<u8>, signer: bool) -> (Seq<u8>, bool, bool) {
    (a, signer, false)
}

/// `op` creates, if it is absent, the holding of `wallet` for `mint` under
/// `token_program`, paid by `payer`.
pub open spec fn is_ensure_holding(
    op: Operation,
    payer: Seq<u8>,
    wallet: Seq<u8>,
    mint: Seq<u8>,
    token_program: Seq<u8>,
) -> bool {
    let acc = accounts_view(op);
    &&& op.program@ == holding_program_bytes()
    &&& acc.len() == 6
    &&& acc[0] == writable(payer, true)
    &&& acc[1] == writable(holding_of(wallet, mint, token_program), false)
    &&& acc[2] == readonly(wallet, false)
    &&& acc[3] == readonly(mint, false)
    &&& acc[4] == readonly(system_program_bytes(), false)
    &&& acc[5] == readonly(token_program, false)
    &&& op.payload@ == seq![1u8]
}

/// Byte `i` of `v`, least significant first.
pub open spec fn le_byte(v: nat, i: nat) -> u8
    decreases i,
{
    if i == 0 {
        (v % 256) as u8
    } else {
        le_byte(v / 256, (i - 1) as nat)
    }
}

/// The payload of a checked transfer of `amount` base units at `decimals`.
pub open spec fn transfer_payload(amount: u64, decimals: u8) -> Seq<u8> {
    seq![12u8] + Seq::new(8, |i: int| le_byte(amount as nat, i as nat)) + seq![decimals]
}

/// `op` moves `amount` base units of `mint` from `source` to `destination`
/// under `token_program`, signed by `authority`.
pub open spec fn is_transfer(
    op: Operation,
    token_program: Seq<u8>,
    source: Seq<u8>,
    mint: Seq<u8>,
    destination: Seq<u8>,
    authority: Seq<u8>,
    amount: u64,
    decimals: u8,
) -> bool {
    &&& op.program@ == token_program
    &&& accounts_view(op) == seq![
        writable(source, false),
        readonly(mint, false),
        writable(destination, false),
        readonly(authority, true),
    ]
    &&& op.payload@ == transfer_payload(amount, decimals)
}

/// Relies on `instruction::create_associated_token_account_idempotent` of
/// spl-associated-token-account: the associated token account program
/// (`ATokenGPvbdGVxr1b2hvZbsiqW5xWH25efTNsLJA8knL`), accounts payer, holding,
/// wallet, mint, system program, token program, and the one-byte payload 1.
#[verifier::external_body]
fn ensure_holding_operation(
    payer: &Address,
    wallet: &Address,
    mint: &Address,
    token_program: &Address,
) -> (r: Operation)
    ensures
        is_ensure_holding(r, payer@, wallet@, mint@, token_program@),
{
    let ix = spl_associated_token_account::instruction::create_associated_token_account_idempotent(
        &payer.bytes.into(),
        &wallet.bytes.into(),
        &mint.bytes.into(),
        &token_program.bytes.into(),
    );
    let accounts = ix.accounts.iter().map(
        |a| AccountRef { address: Address { bytes: a.pubkey.to_bytes() }, is_signer: a.is_signer, is_writable: a.is_writable },
    ).collect();
    Operation { program: Address { bytes: ix.program_id.to_bytes() }, accounts, payload: ix.data }
}

/// Relies on `instruction::transfer_checked` of spl-token, with no multisig
/// signers: it fails (`check_program_account`) for any token program but its
/// own, and otherwise gives
/// source, mint, destination and signing authority, and the payload 12, the
/// amount in little-endian order, the decimals.
#[verifier::external_body]
fn transfer_operation(
    token_program: &Address,
    source: &Address,
    mint: &Address,
    destination: &Address,
    authority: &Address,
    amount: u64,
    decimals: u8,
) -> (r: Option<Operation>)
    ensures
        r is Some <==> accepted_token_program(token_program@),
        r matches Some(op) ==> is_transfer(op, token_program@, source@, mint@, destination@, authority@, amount, decimals),
{
    let ix = spl_token::instruction::transfer_checked(
        &token_program.bytes.into(), &source.bytes.into(), &mint.bytes.into(),
        &destination.bytes.into(), &authority.bytes.into(), &[], amount, decimals,
    ).ok()?;
    let accounts = ix.accounts.iter().map(
        |a| AccountRef { address: Address { bytes: a.pubkey.to_bytes() }, is_signer: a.is_signer, is_writable: a.is_writable },
    ).collect();
    Some(Operation { program: Address { bytes: ix.program_id.to_bytes() }, accounts, payload: ix.data })
}

/// The fixed accounts of the staking program and of the asset.
#[derive(Debug, Clone, PartialEq, Eq)]
pub struct Protocol {
    pub stake_program: Address,
    pub authority: Address,
    pub expired_reward_pool: Address,
    pub stake_pool: Address,
    pub vault: Address,
    pub expired_vault: Address,
    pub mint: Address,
    pub token_program: Address,
    pub rent_sysvar: Address,
    pub system_program: Address,
    /// The payload that selects the withdrawal in the staking program.
    pub withdraw_selector: Vec<u8>,
    /// The number of fractional digits of the asset.
    pub decimals: u8,
}

pub const STAKE_PROGRAM: &'static str = "STAKEkKzbdeKkqzKpLkNQD3SUuLgshDKCD7U8duxAbB";
pub const STAKE_AUTHORITY: &'static str = "4ZERSm31VsRtaXY6U2fXA56TvixKvYctHGEzr5v1fgYp";
pub const EXPIRED_REWARD_POOL: &'static str = "4hX8YQesSk5JmRNrMXMgXyzbH6L4HG6y7Ujd8v1JH1G2";
pub const STAKE_POOL: &'static str = "9AdEE8AAm1XgJrPEs4zkTPozr3o4U5iGbgvPwkNdLDJ3";
pub const STAKE_VAULT: &'static str = "4XHP9YQeeXPXHAjNXuKio1na1ypcxFSqFYBHtptQticd";
pub const EXPIRED_VAULT: &'static str = "9dyAurg9bhZKPPZhEmkbF7VU3sjWuyTqbDT6J3Lm5Hqw";
pub const BONK_MINT: &'static str = "DezXAZ8z7PnrnRJjz3wXBoRgixCa6xjnB7YaB1pPB263";
pub const WITHDRAW_SELECTOR: &'static str = "a7e3bf88215412da";
pub const BONK_DECIMALS: u8 = 5;

impl Protocol {
    /// The holding of `owner` for the asset: the Derived-Address of
    /// (`owner`, mint) under the token program.
    pub fn holding_for(&self, owner: &Address) -> (r: Address)
        ensures
            r@ == holding_of(owner@, self.mint@, self.token_program@),
    {
        associated_holding(owner, &self.mint, &self.token_program)
    }

    /// The Derived-Address Resolver is a function: equal owners under one
    /// protocol give the same holding.
    pub proof fn lemma_holding_deterministic(self, owner1: Seq<u8>, owner2: Seq<u8>)
        requires
            owner1 == owner2,
        ensures
            holding_of(owner1, self.mint@, self.token_program@) == holding_of(
                owner2,
                self.mint@,
                self.token_program@,
            ),
    {
    }

    /// The bonk staking program and the bonk asset: each written address
    /// decoded, the program addresses taken from the token and system crates.
    /// None only when one of the written addresses does not decode.
    pub fn standard() -> (r: Option<Protocol>)
        ensures
            r is Some <==> {
                &&& address_from_text(STAKE_PROGRAM@) is Some
                &&& address_from_text(STAKE_AUTHORITY@) is Some
                &&& address_from_text(EXPIRED_REWARD_POOL@) is Some
                &&& address_from_text(STAKE_POOL@) is Some
                &&& address_from_text(STAKE_VAULT@) is Some
                &&& address_from_text(EXPIRED_VAULT@) is Some
                &&& address_from_text(BONK_MINT@) is Some
            },
            r matches Some(p) ==> {
                &&& address_from_text(STAKE_PROGRAM@) == Some(p.stake_program@)
                &&& address_from_text(STAKE_AUTHORITY@) == Some(p.authority@)
                &&& address_from_text(EXPIRED_REWARD_POOL@) == Some(p.expired_reward_pool@)
                &&& address_from_text(STAKE_POOL@) == Some(p.stake_pool@)
                &&& address_from_text(STAKE_VAULT@) == Some(p.vault@)
                &&& address_from_text(EXPIRED_VAULT@) == Some(p.expired_vault@)
                &&& address_from_text(BONK_MINT@) == Some(p.mint@)
                &&& hex_decoding(WITHDRAW_SELECTOR@) == Some(p.withdraw_selector@)
                &&& p.decimals == BONK_DECIMALS
                &&& p.token_program@ == token_program_bytes()
                &&& p.rent_sysvar@ == rent_sysvar_bytes()
                &&& p.system_program@ == system_program_bytes()
            },
    {
        proof {
            reveal_strlit("a7e3bf88215412da");
            let t = WITHDRAW_SELECTOR@;
            assert(t.len() == 16);
            assert forall|i: int| 0 <= i < t.len() implies hex_digit_value(#[trigger] t[i]) >= 0 by {
                assert(0 <= i < 16);
            }
            assert(hex_decoding(t) is Some);
        }
        let stake_program = parse_address(STAKE_PROGRAM)?;
        let authority = parse_address(STAKE_AUTHORITY)?;
        let expired_reward_pool = parse_address(EXPIRED_REWARD_POOL)?;
        let stake_pool = parse_address(STAKE_POOL)?;
        let vault = parse_address(STAKE_VAULT)?;
        let expired_vault = parse_address(EXPIRED_VAULT)?;
        let mint = parse_address(BONK_MINT)?;
        let withdraw_selector = decode_hex(WITHDRAW_SELECTOR)?;
        Some(
            Protocol {
                stake_program,
                authority,
                expired_reward_pool,
                stake_pool,
                vault,
                expired_vault,
                mint,
                token_program: token_program_address(),
                rent_sysvar: rent_sysvar_address(),
                system_program: system_program_address(),
                withdraw_selector,
                decimals: BONK_DECIMALS,
            },
        )
    }
}

/// The accounts of the withdrawal for `owner`, whose principal and reward
/// both go to `holding`.
pub open spec fn withdraw_accounts(p: Protocol, owner: Seq<u8>, receipt: Seq<u8>, holding: Seq<u8>) -> Seq<
    (Seq<u8>, bool, bool),
> {
    seq![
        writable(p.authority@, false),
        writable(owner, true),
        writable(receipt, false),
        writable(p.expired_reward_pool@, false),
        writable(p.stake_pool@, false),
        writable(p.vault@, false),
        writable(p.expired_vault@, false),
        writable(holding, false),
        writable(holding, false),
        readonly(p.token_program@, false),
        readonly(p.rent_sysvar@, false),
        readonly(p.system_program@, false),
    ]
}

pub open spec fn is_withdraw(op: Operation, p: Protocol, owner: Seq<u8>, receipt: Seq<u8>, holding: Seq<u8>) -> bool {
    &&& op.program == p.stake_program
    &&& accounts_view(op) == withdraw_accounts(p, owner, receipt, holding)
    &&& op.payload@ == p.withdraw_selector@
}

fn account(address: &Address, is_signer: bool, is_writable: bool) -> (r: AccountRef)
    ensures
        r@ == (address@, is_signer, is_writable),
{
    AccountRef { address: *address, is_signer, is_writable }
}

/// The withdrawal from the staking program of the receipt `receipt` of
/// `owner`, paying out into `holding`.
pub fn withdraw_operation(p: &Protocol, owner: &Address, receipt: &Address, holding: &Address) -> (r:
    Operation)
    ensures
        is_withdraw(r, *p, owner@, receipt@, holding@),
{
    let mut accounts: Vec<AccountRef> = Vec::new();
    accounts.push(account(&p.authority, false, true));
    accounts.push(account(owner, true, true));
    accounts.push(account(receipt, false, true));
    accounts.push(account(&p.expired_reward_pool, false, true));
    accounts.push(account(&p.stake_pool, false, true));
    accounts.push(account(&p.vault, false, true));
    accounts.push(account(&p.expired_vault, false, true));
    accounts.push(account(holding, false, true));
    accounts.push(account(holding, false, true));
    accounts.push(account(&p.token_program, false, false));
    accounts.push(account(&p.rent_sysvar, false, false));
    accounts.push(account(&p.system_program, false, false));
    let mut payload: Vec<u8> = Vec::new();
    let mut i: usize = 0;
    while i < p.withdraw_selector.len()
        invariant
            i <= p.withdraw_selector@.len(),
            payload@ == p.withdraw_selector@.take(i as int),
        decreases p.withdraw_selector@.len() - i,
    {
        payload.push(p.withdraw_selector[i]);
        i = i + 1;
        assert(payload@ =~= p.withdraw_selector@.take(i as int));
    }
    assert(payload@ =~= p.withdraw_selector@);
    let r = Operation { program: p.stake_program, accounts, payload };
    assert(accounts_view(r) =~= withdraw_accounts(*p, owner@, receipt@, holding@));
    r
}

/// The four operations of a target's bundle, in their required order.
pub open spec fn is_target_bundle(
    ops: Seq<Operation>,
    p: Protocol,
    fee_payer: Seq<u8>,
    owner: Seq<u8>,
    forward_owner: Seq<u8>,
    receipt: Seq<u8>,
    amount: u64,
) -> bool {
    let own_holding = holding_of(owner, p.mint@, p.token_program@);
    let forward_holding = holding_of(forward_owner, p.mint@, p.token_program@);
    &&& ops.len() == 4
    &&& is_ensure_holding(ops[0], fee_payer, owner, p.mint@, p.token_program@)
    &&& is_ensure_holding(ops[1], fee_payer, forward_owner, p.mint@, p.token_program@)
    &&& is_withdraw(ops[2], p, owner, receipt, own_holding)
    &&& is_transfer(
        ops[3],
        p.token_program@,
        own_holding,
        p.mint@,
        forward_holding,
        owner,
        amount,
        p.decimals,
    )
}

/// Assembles a target's bundle: create the owner's holding if absent, create
/// the forwarding holding if absent, withdraw into the owner's holding, and
/// transfer `amount` base units from it to the forwarding holding. None only
/// when the token crate refuses `p`'s token program.
pub fn build_bundle(
    p: &Protocol,
    fee_payer: &Address,
    owner: &Address,
    forward_owner: &Address,
    receipt: &Address,
    amount: u64,
) -> (r: Option<Vec<Operation>>)
    ensures
        r is Some <==> accepted_token_program(p.token_program@),
        r matches Some(ops) ==> is_target_bundle(
            ops@,
            *p,
            fee_payer@,
            owner@,
            forward_owner@,
            receipt@,
            amount,
        ),
{
    let own_holding = p.holding_for(owner);
    let forward_holding = p.holding_for(forward_owner);
    let transfer = transfer_operation(
        &p.token_program,
        &own_holding,
        &p.mint,
        &forward_holding,
        owner,
        amount,
        p.decimals,
    )?;
    let mut ops: Vec<Operation> = Vec::new();
    ops.push(ensure_holding_operation(fee_payer, owner, &p.mint, &p.token_program));
    ops.push(ensure_holding_operation(fee_payer, forward_owner, &p.mint, &p.token_program));
    ops.push(withdraw_operation(p, owner, receipt, &own_holding));
    ops.push(transfer);
    Some(ops)
}

/// Account `j` of operation `i` of `ops` is a signer whose address is `a`.
pub open spec fn signer_at(ops: Seq<Operation>, i: int, j: int, a: Seq<u8>) -> bool {
    &&& 0 <= i < ops.len()
    &&& 0 <= j < ops[i].accounts@.len()
    &&& ops[i].accounts@[j].is_signer
    &&& ops[i].accounts@[j].address@ == a
}

/// A bundle of `ops` paid by `fee_payer` needs the signature of `a`.
pub open spec fn needs_signature(ops: Seq<Operation>, fee_payer: Seq<u8>, a: Seq<u8>) -> bool {
    a == fee_payer || exists|i: int, j: int| #[trigger] signer_at(ops, i, j, a)
}

/// A bundle of `ops` paid by `fee_payer` needs exactly two signatures: the
/// fee payer's and the owner's.
pub open spec fn signed_by_exactly(ops: Seq<Operation>, fee_payer: Seq<u8>, owner: Seq<u8>) -> bool {
    &&& fee_payer != owner
    &&& needs_signature(ops, fee_payer, owner)
    &&& forall|a: Seq<u8>| needs_signature(ops, fee_payer, a) ==> a == fee_payer || a == owner
}

/// Why a bundle cannot be signed by its fee payer and owner alone.
#[derive(Debug, Clone, Copy, PartialEq, Eq, Structural)]
pub enum SignerError {
    /// The fee payer and the owner are the same address.
    SameSigner,
    /// No operation asks for the owner's signature.
    OwnerNotRequired,
    /// An operation asks for the signature of a third address.
    ExtraSigner,
}

/// A bundle whose signers are checked: it needs the signatures of its fee
/// payer and of one owner, and of no one else. `signers` lists them in the
/// order they sign: fee payer first.
#[derive(Debug, Clone, PartialEq, Eq)]
pub struct SealedBundle {
    pub operations: Vec<Operation>,
    pub fee_payer: Address,
    pub signers: Vec<Address>,
}

/// Checks that `operations`, paid by `fee_payer`, need exactly the signatures
/// of `fee_payer` and `owner`, and seals them as a bundle for those two.
pub fn seal_bundle(operations: Vec<Operation>, fee_payer: Address, owner: Address) -> (r: Result<
    SealedBundle,
    SignerError,
>)
    ensures
        match r {
            Ok(b) => {
                &&& signed_by_exactly(operations@, fee_payer@, owner@)
                &&& b.operations@ == operations@
                &&& b.fee_payer == fee_payer
                &&& b.signers@ == seq![fee_payer, owner]
            },
            Err(SignerError::SameSigner) => fee_payer@ == owner@,
            Err(SignerError::ExtraSigner) => fee_payer@ != owner@ && exists|a: Seq<u8>|
                needs_signature(operations@, fee_payer@, a) && a != fee_payer@ && a != owner@,
            Err(SignerError::OwnerNotRequired) => fee_payer@ != owner@ && !needs_signature(
                operations@,
                fee_payer@,
                owner@,
            ),
        },
{
    if fee_payer.same(&owner) {
        return Err(SignerError::SameSigner);
    }
    let ghost ops = operations@;
    let mut owner_signs = false;
    let mut i: usize = 0;
    while i < operations.len()
        invariant
            i <= ops.len(),
            ops == operations@,
            fee_payer@ != owner@,
            forall|x: int, y: int, a: Seq<u8>|
                x < i && #[trigger] signer_at(ops, x, y, a) ==> a == fee_payer@ || a == owner@,
            owner_signs ==> exists|x: int, y: int| #[trigger] signer_at(ops, x, y, owner@),
            !owner_signs ==> forall|x: int, y: int| x < i ==> !#[trigger] signer_at(ops, x, y, owner@),
        decreases ops.len() - i,
    {
        let op = &operations[i];
        let mut j: usize = 0;
        while j < op.accounts.len()
            invariant
                i < ops.len(),
                j <= op.accounts@.len(),
                *op == ops[i as int],
                ops == operations@,
                fee_payer@ != owner@,
                forall|x: int, y: int, a: Seq<u8>|
                    (x < i || (x == i && y < j)) && #[trigger] signer_at(ops, x, y, a) ==> a
                        == fee_payer@ || a == owner@,
                owner_signs ==> exists|x: int, y: int| #[trigger] signer_at(ops, x, y, owner@),
                !owner_signs ==> forall|x: int, y: int|
                    (x < i || (x == i && y < j)) ==> !#[trigger] signer_at(ops, x, y, owner@),
            decreases op.accounts@.len() - j,
        {
            let a = op.accounts[j];
            if a.is_signer {
                assert(signer_at(ops, i as int, j as int, a.address@));
                if a.address.same(&owner) {
                    owner_signs = true;
                } else if !a.address.same(&fee_payer) {
                    assert(needs_signature(ops, fee_payer@, a.address@));
                    return Err(SignerError::ExtraSigner);
                }
            }
            j = j + 1;
        }
        i = i + 1;
    }
    if !owner_signs {
        return Err(SignerError::OwnerNotRequired);
    }
    Ok(SealedBundle { operations, fee_payer, signers: vec![fee_payer, owner] })
}

/// Every target bundle needs the signatures of its fee payer and its owner
/// and of no one else, whenever the two are different addresses.
pub proof fn lemma_target_bundle_signers(
    ops: Seq<Operation>,
    p: Protocol,
    fee_payer: Seq<u8>,
    owner: Seq<u8>,
    forward_owner: Seq<u8>,
    receipt: Seq<u8>,
    amount: u64,
)
    requires
        is_target_bundle(ops, p, fee_payer, owner, forward_owner, receipt, amount),
        fee_payer != owner,
    ensures
        signed_by_exactly(ops, fee_payer, owner),
{
    let w = accounts_view(ops[2]);
    assert(w == withdraw_accounts(p, owner, receipt, holding_of(owner, p.mint@, p.token_program@)));
    assert(w[1] == writable(owner, true));
    assert(w[1] == ops[2].accounts@[1]@);
    assert(signer_at(ops, 2, 1, owner));
    assert forall|a: Seq<u8>| needs_signature(ops, fee_payer, a) implies a == fee_payer || a
        == owner by {
        if a != fee_payer {
            let (i, j) = choose|i: int, j: int| #[trigger] signer_at(ops, i, j, a);
            let v = accounts_view(ops[i]);
            assert(v[j] == ops[i].accounts@[j]@);
            assert(v[j].1 && v[j].0 == a);
            if i == 0 || i == 1 {
                assert(j == 0 || j == 1 || j == 2 || j == 3 || j == 4 || j == 5);
            } else if i == 2 {
                assert(0 <= j < 12);
                assert(j == 1);
            } else {
                let own_holding = holding_of(owner, p.mint@, p.token_program@);
                let forward_holding = holding_of(forward_owner, p.mint@, p.token_program@);
                assert(v == seq![
                    writable(own_holding, false),
                    readonly(p.mint@, false),
                    writable(forward_holding, false),
                    readonly(owner, true),
                ]);
                assert(v.len() == 4);
                assert(j == 0 || j == 1 || j == 2 || j == 3);
            }
        }
    }
}

} // verus!

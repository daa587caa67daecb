//! Startup validation of the configuration, the per-target bundle, and the
//! decisions of the loop over the targets.

use vstd::prelude::*;
use crate::address::{accepted_token_program, address_from_text, parse_address, Address};
use crate::amount::{conversion, to_base_units, AmountError};
use crate::bundle::{
    build_bundle, is_target_bundle, seal_bundle, transfer_payload, Operation, Protocol, SealedBundle,
    SignerError,
};
use crate::identity::{identity_check, validate_identity, IdentityError};

verus! {

/// One configured unit of work. `amount` is the decimal quantity to forward,
/// as written in the configuration.
#[derive(Debug, Clone)]
pub struct Target {
    pub owner_pubkey: String,
    pub owner_secret: String,
    pub stake_receipt_pubkey: String,
    pub amount: String,
}

/// The forwarder's configuration.
#[derive(Debug, Clone)]
pub struct Config {
    pub rpc_url: String,
    pub forward_dest_pubkey: String,
    pub fee_payer_pubkey: String,
    pub fee_payer_secret: String,
    pub targets: Vec<Target>,
}

/// A target whose identity, receipt and amount are checked.
#[derive(Debug, Clone, Copy, PartialEq, Eq)]
pub struct PreparedTarget {
    pub owner: Address,
    pub stake_receipt: Address,
    pub amount: u64,
}

/// The checked configuration: the fee payer, the forwarding owner and the
/// targets, in configured order.
#[derive(Debug, Clone, PartialEq, Eq)]
pub struct Plan {
    pub fee_payer: Address,
    pub forward_owner: Address,
    pub targets: Vec<PreparedTarget>,
}

/// Why the configuration is refused at startup.
#[derive(Debug, Clone, Copy, PartialEq, Eq, Structural)]
pub enum ConfigError {
    /// The fee payer's secret and address do not agree, or are invalid.
    FeePayer(IdentityError),
    /// The forwarding owner's address is invalid.
    ForwardOwner,
    /// The owner of the target at this index failed its identity check.
    Owner(usize, IdentityError),
    /// The staking receipt of the target at this index is invalid.
    StakeReceipt(usize),
    /// The amount of the target at this index could not be converted.
    Amount(usize, AmountError),
}

/// Target `t` passes every startup check.
pub open spec fn target_ok(t: Target, decimals: u8) -> bool {
    &&& identity_check(t.owner_secret@, t.owner_pubkey@) is Ok
    &&& address_from_text(t.stake_receipt_pubkey@) is Some
    &&& conversion(t.amount@, decimals as nat) is Ok
}

/// `pt` is what the checks make of target `t`.
pub open spec fn prepared_from(pt: PreparedTarget, t: Target, decimals: u8) -> bool {
    &&& identity_check(t.owner_secret@, t.owner_pubkey@) == Ok::<Seq<u8>, IdentityError>(pt.owner@)
    &&& address_from_text(t.stake_receipt_pubkey@) == Some(pt.stake_receipt@)
    &&& conversion(t.amount@, decimals as nat) == Ok::<nat, AmountError>(pt.amount as nat)
}

/// The fee payer and the forwarding owner pass their checks.
pub open spec fn shared_ok(c: Config) -> bool {
    &&& identity_check(c.fee_payer_secret@, c.fee_payer_pubkey@) is Ok
    &&& address_from_text(c.forward_dest_pubkey@) is Some
}

/// The targets before `i` pass their checks.
pub open spec fn targets_ok_before(c: Config, i: int, decimals: u8) -> bool {
    forall|k: int| 0 <= k < i ==> target_ok(#[trigger] c.targets@[k], decimals)
}

fn prepare_target(t: &Target, index: usize, decimals: u8) -> (r: Result<PreparedTarget, ConfigError>)
    ensures
        match r {
            Ok(pt) => prepared_from(pt, *t, decimals),
            Err(ConfigError::Owner(i, e)) => i == index && identity_check(t.owner_secret@, t.owner_pubkey@)
                == Err::<Seq<u8>, IdentityError>(e),
            Err(ConfigError::StakeReceipt(i)) => i == index && identity_check(
                t.owner_secret@,
                t.owner_pubkey@,
            ) is Ok && address_from_text(t.stake_receipt_pubkey@) is None,
            Err(ConfigError::Amount(i, e)) => i == index && identity_check(
                t.owner_secret@,
                t.owner_pubkey@,
            ) is Ok && address_from_text(t.stake_receipt_pubkey@) is Some && conversion(
                t.amount@,
                decimals as nat,
            ) == Err::<nat, AmountError>(e),
            Err(_) => false,
        },
{
    let owner = match validate_identity(t.owner_secret.as_str(), t.owner_pubkey.as_str()) {
        Ok(a) => a,
        Err(e) => {
            return Err(ConfigError::Owner(index, e));
        },
    };
    let stake_receipt = match parse_address(t.stake_receipt_pubkey.as_str()) {
        Some(a) => a,
        None => {
            return Err(ConfigError::StakeReceipt(index));
        },
    };
    let amount = match to_base_units(t.amount.as_str(), decimals) {
        Ok(v) => v,
        Err(e) => {
            return Err(ConfigError::Amount(index, e));
        },
    };
    Ok(PreparedTarget { owner, stake_receipt, amount })
}

/// Checks the whole configuration before anything is sent: the fee payer's
/// identity first, then the forwarding owner, then each target in order
/// (owner identity, staking receipt, amount at `decimals`). The first failed
/// check is returned.
pub fn prepare(config: &Config, decimals: u8) -> (r: Result<Plan, ConfigError>)
    ensures
        match r {
            Ok(plan) => {
                &&& identity_check(config.fee_payer_secret@, config.fee_payer_pubkey@) == Ok::<
                    Seq<u8>,
                    IdentityError,
                >(plan.fee_payer@)
                &&& address_from_text(config.forward_dest_pubkey@) == Some(plan.forward_owner@)
                &&& plan.targets@.len() == config.targets@.len()
                &&& forall|i: int|
                    0 <= i < plan.targets@.len() ==> prepared_from(
                        #[trigger] plan.targets@[i],
                        config.targets@[i],
                        decimals,
                    )
            },
            Err(ConfigError::FeePayer(e)) => identity_check(
                config.fee_payer_secret@,
                config.fee_payer_pubkey@,
            ) == Err::<Seq<u8>, IdentityError>(e),
            Err(ConfigError::ForwardOwner) => identity_check(
                config.fee_payer_secret@,
                config.fee_payer_pubkey@,
            ) is Ok && address_from_text(config.forward_dest_pubkey@) is None,
            Err(ConfigError::Owner(i, e)) => shared_ok(*config) && i < config.targets@.len()
                && targets_ok_before(*config, i as int, decimals) && identity_check(
                config.targets@[i as int].owner_secret@,
                config.targets@[i as int].owner_pubkey@,
            ) == Err::<Seq<u8>, IdentityError>(e),
            Err(ConfigError::StakeReceipt(i)) => shared_ok(*config) && i < config.targets@.len()
                && targets_ok_before(*config, i as int, decimals) && identity_check(
                config.targets@[i as int].owner_secret@,
                config.targets@[i as int].owner_pubkey@,
            ) is Ok && address_from_text(config.targets@[i as int].stake_receipt_pubkey@) is None,
            Err(ConfigError::Amount(i, e)) => shared_ok(*config) && i < config.targets@.len()
                && targets_ok_before(*config, i as int, decimals) && identity_check(
                config.targets@[i as int].owner_secret@,
                config.targets@[i as int].owner_pubkey@,
            ) is Ok && address_from_text(config.targets@[i as int].stake_receipt_pubkey@) is Some
                && conversion(config.targets@[i as int].amount@, decimals as nat) == Err::<
                nat,
                AmountError,
            >(e),
        },
{
    let fee_payer = match validate_identity(
        config.fee_payer_secret.as_str(),
        config.fee_payer_pubkey.as_str(),
    ) {
        Ok(a) => a,
        Err(e) => {
            return Err(ConfigError::FeePayer(e));
        },
    };
    let forward_owner = match parse_address(config.forward_dest_pubkey.as_str()) {
        Some(a) => a,
        None => {
            return Err(ConfigError::ForwardOwner);
        },
    };
    let mut targets: Vec<PreparedTarget> = Vec::new();
    let mut i: usize = 0;
    while i < config.targets.len()
        invariant
            i <= config.targets@.len(),
            targets@.len() == i,
            shared_ok(*config),
            identity_check(config.fee_payer_secret@, config.fee_payer_pubkey@) == Ok::<
                Seq<u8>,
                IdentityError,
            >(fee_payer@),
            address_from_text(config.forward_dest_pubkey@) == Some(forward_owner@),
            forall|k: int|
                0 <= k < i ==> prepared_from(#[trigger] targets@[k], config.targets@[k], decimals),
        decreases config.targets@.len() - i,
    {
        let pt = prepare_target(&config.targets[i], i, decimals);
        proof {
            assert forall|k: int| 0 <= k < i implies target_ok(
                #[trigger] config.targets@[k],
                decimals,
            ) by {
                assert(prepared_from(targets@[k], config.targets@[k], decimals));
            }
        }
        match pt {
            Ok(t) => {
                targets.push(t);
            },
            Err(e) => {
                return Err(e);
            },
        }
        i = i + 1;
    }
    Ok(Plan { fee_payer, forward_owner, targets })
}

/// Why a target's bundle could not be made this pass.
#[derive(Debug, Clone, Copy, PartialEq, Eq, Structural)]
pub enum BundleError {
    /// The token crate refused to build the transfer.
    TransferRefused,
    /// The bundle cannot be signed by exactly the fee payer and the owner.
    Signers(SignerError),
}

impl Plan {
    /// The sealed bundle of the target at `index`: its four operations, to be
    /// signed by the fee payer and the target's owner.
    pub fn bundle_for(&self, protocol: &Protocol, index: usize) -> (r: Result<SealedBundle, BundleError>)
        requires
            index < self.targets@.len(),
        ensures
            ({
                let t = self.targets@[index as int];
                &&& r matches Ok(b) ==> {
                    &&& is_target_bundle(
                        b.operations@,
                        *protocol,
                        self.fee_payer@,
                        t.owner@,
                        self.forward_owner@,
                        t.stake_receipt@,
                        t.amount,
                    )
                    &&& b.fee_payer == self.fee_payer
                    &&& b.signers@ == seq![self.fee_payer, t.owner]
                }
                &&& r is Ok <==> accepted_token_program(protocol.token_program@) && self.fee_payer@
                    != t.owner@
                &&& (r == Err::<SealedBundle, BundleError>(BundleError::TransferRefused))
                    <==> !accepted_token_program(protocol.token_program@)
                &&& r matches Err(BundleError::Signers(e)) ==> e == SignerError::SameSigner
                    && self.fee_payer@ == t.owner@
            }),
    {
        let t = self.targets[index];
        let ops = match build_bundle(
            protocol,
            &self.fee_payer,
            &t.owner,
            &self.forward_owner,
            &t.stake_receipt,
            t.amount,
        ) {
            Some(ops) => ops,
            None => {
                return Err(BundleError::TransferRefused);
            },
        };
        proof {
            if self.fee_payer@ != t.owner@ {
                crate::bundle::lemma_target_bundle_signers(
                    ops@,
                    *protocol,
                    self.fee_payer@,
                    t.owner@,
                    self.forward_owner@,
                    t.stake_receipt@,
                    t.amount,
                );
            }
        }
        match seal_bundle(ops, self.fee_payer, t.owner) {
            Ok(b) => Ok(b),
            Err(e) => Err(BundleError::Signers(e)),
        }
    }
}

/// The transfer of a prepared target's bundle carries exactly what the
/// amount converter made of the target's configured quantity.
pub proof fn lemma_transfer_carries_converted_amount(
    ops: Seq<Operation>,
    p: Protocol,
    t: Target,
    pt: PreparedTarget,
    fee_payer: Seq<u8>,
    forward_owner: Seq<u8>,
)
    requires
        prepared_from(pt, t, p.decimals),
        is_target_bundle(ops, p, fee_payer, pt.owner@, forward_owner, pt.stake_receipt@, pt.amount),
    ensures
        conversion(t.amount@, p.decimals as nat) == Ok::<nat, AmountError>(pt.amount as nat),
        ops[3].payload@ == transfer_payload(pt.amount, p.decimals),
{
}

/// What the loop does next.
#[derive(Debug, Clone, Copy, PartialEq, Eq, Structural)]
pub enum Step {
    /// Build, sign and submit the bundle of the target at this index.
    Submit(usize),
    /// Pause, then start the next pass.
    Pause,
}

/// The first step of a pass over `n_targets` targets.
pub fn first_step(n_targets: usize) -> (r: Step)
    ensures
        n_targets > 0 ==> r == Step::Submit(0),
        n_targets == 0 ==> r == Step::Pause,
{
    if n_targets > 0 {
        Step::Submit(0)
    } else {
        Step::Pause
    }
}

/// The step after the submission for target `current` of `n_targets`,
/// whether the network `accepted` it or not: the next target in order, or
/// the pause at the end of the pass.
pub fn next_step(current: usize, n_targets: usize, accepted: bool) -> (r: Step)
    requires
        current < n_targets,
    ensures
        current + 1 < n_targets ==> r == Step::Submit((current + 1) as usize),
        current + 1 == n_targets ==> r == Step::Pause,
{
    if current + 1 < n_targets {
        Step::Submit(current + 1)
    } else {
        Step::Pause
    }
}

} // verus!

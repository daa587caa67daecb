use bonk_forwarder::address::Address;
use bonk_forwarder::bundle::{
    build_bundle, seal_bundle, withdraw_operation, AccountRef, Operation, Protocol, SignerError,
};
use bonk_forwarder::driver::{
    first_step, next_step, prepare, BundleError, Config, ConfigError, Step, Target,
};
use bonk_forwarder::identity::{validate_identity, IdentityError};
use bonk_forwarder::amount::AmountError;
use solana_sdk::signer::keypair::Keypair;
use solana_sdk::signer::Signer;

fn key(seed: u8) -> Keypair {
    Keypair::new_from_array([seed; 32])
}

fn addr(k: &Keypair) -> Address {
    Address { bytes: k.pubkey().to_bytes() }
}

fn protocol() -> Protocol {
    Protocol::standard().expect("the fixed addresses decode")
}

fn target(owner: &Keypair, amount: &str) -> Target {
    Target {
        owner_pubkey: owner.pubkey().to_string(),
        owner_secret: owner.to_base58_string(),
        stake_receipt_pubkey: key(50).pubkey().to_string(),
        amount: amount.to_string(),
    }
}

fn config(fee: &Keypair, targets: Vec<Target>) -> Config {
    Config {
        rpc_url: "http://localhost:8899".to_string(),
        forward_dest_pubkey: key(60).pubkey().to_string(),
        fee_payer_pubkey: fee.pubkey().to_string(),
        fee_payer_secret: fee.to_base58_string(),
        targets,
    }
}

#[test]
fn identity_matches_its_secret() {
    let k = key(1);
    let r = validate_identity(&k.to_base58_string(), &k.pubkey().to_string());
    assert_eq!(r, Ok(addr(&k)));
}

#[test]
fn identity_mismatch_is_refused() {
    let k = key(1);
    let other = key(2);
    let r = validate_identity(&k.to_base58_string(), &other.pubkey().to_string());
    assert_eq!(r, Err(IdentityError::Mismatch));
}

#[test]
fn identity_with_invalid_inputs_is_refused() {
    let k = key(1);
    assert_eq!(
        validate_identity(&k.to_base58_string(), "not-an-address"),
        Err(IdentityError::InvalidAddress)
    );
    assert_eq!(
        validate_identity("0OIl", &k.pubkey().to_string()),
        Err(IdentityError::InvalidSecret)
    );
}

#[test]
fn standard_protocol_holds_the_fixed_accounts() {
    let p = protocol();
    assert_eq!(p.decimals, 5);
    assert_eq!(p.withdraw_selector, vec![0xa7, 0xe3, 0xbf, 0x88, 0x21, 0x54, 0x12, 0xda]);
    assert_eq!(p.token_program.bytes, spl_token::ID.to_bytes());
    let mint: solana_sdk::pubkey::Pubkey =
        "DezXAZ8z7PnrnRJjz3wXBoRgixCa6xjnB7YaB1pPB263".parse().unwrap();
    assert_eq!(p.mint.bytes, mint.to_bytes());
    assert_eq!(p.system_program.bytes, [0u8; 32]);
    let rent: solana_sdk::pubkey::Pubkey =
        "SysvarRent111111111111111111111111111111111".parse().unwrap();
    assert_eq!(p.rent_sysvar.bytes, rent.to_bytes());
}

#[test]
fn holding_is_deterministic_and_distinct_per_owner() {
    let p = protocol();
    let a = addr(&key(3));
    let b = addr(&key(4));
    assert_eq!(p.holding_for(&a), p.holding_for(&a));
    assert_ne!(p.holding_for(&a), p.holding_for(&b));
    assert_ne!(p.holding_for(&a), a);
    #[allow(deprecated)]
    let expected = spl_associated_token_account::get_associated_token_address(
        &a.bytes.into(),
        &p.mint.bytes.into(),
    );
    assert_eq!(p.holding_for(&a).bytes, expected.to_bytes());
}

#[test]
fn bundle_has_four_operations_in_order() {
    let p = protocol();
    let fee = addr(&key(1));
    let owner = addr(&key(2));
    let forward = addr(&key(3));
    let receipt = addr(&key(4));
    let ops = build_bundle(&p, &fee, &owner, &forward, &receipt, 100000000000).unwrap();
    assert_eq!(ops.len(), 4);
    let own_holding = p.holding_for(&owner);
    let forward_holding = p.holding_for(&forward);
    assert_eq!(ops[0].payload, vec![1]);
    let holding_program: solana_sdk::pubkey::Pubkey =
        "ATokenGPvbdGVxr1b2hvZbsiqW5xWH25efTNsLJA8knL".parse().unwrap();
    assert_eq!(ops[0].program.bytes, holding_program.to_bytes());
    assert_eq!(ops[1].program.bytes, holding_program.to_bytes());
    assert_eq!(ops[0].accounts[4], AccountRef { address: p.system_program, is_signer: false, is_writable: false });
    assert_eq!(ops[0].accounts[0], AccountRef { address: fee, is_signer: true, is_writable: true });
    assert_eq!(ops[0].accounts[1].address, own_holding);
    assert_eq!(ops[0].accounts[2].address, owner);
    assert_eq!(ops[1].accounts[1].address, forward_holding);
    assert_eq!(ops[1].accounts[2].address, forward);
    assert_eq!(ops[2].program, p.stake_program);
    assert_eq!(ops[2].accounts.len(), 12);
    assert_eq!(ops[2].accounts[1], AccountRef { address: owner, is_signer: true, is_writable: true });
    assert_eq!(ops[2].accounts[2].address, receipt);
    assert_eq!(ops[2].accounts[7].address, own_holding);
    assert_eq!(ops[2].accounts[8].address, own_holding);
    assert_eq!(ops[2].payload, p.withdraw_selector);
    assert_eq!(ops[3].program, p.token_program);
    let mut payload = vec![12u8];
    payload.extend_from_slice(&100000000000u64.to_le_bytes());
    payload.push(5);
    assert_eq!(ops[3].payload, payload);
    assert_eq!(ops[3].accounts[0].address, own_holding);
    assert_eq!(ops[3].accounts[2].address, forward_holding);
    assert_eq!(ops[3].accounts[3], AccountRef { address: owner, is_signer: true, is_writable: false });
}

#[test]
fn withdraw_operation_lists_the_staking_accounts() {
    let p = protocol();
    let owner = addr(&key(2));
    let receipt = addr(&key(4));
    let holding = p.holding_for(&owner);
    let op = withdraw_operation(&p, &owner, &receipt, &holding);
    let expected = [
        p.authority, owner, receipt, p.expired_reward_pool, p.stake_pool, p.vault,
        p.expired_vault, holding, holding, p.token_program, p.rent_sysvar, p.system_program,
    ];
    for (i, a) in expected.iter().enumerate() {
        assert_eq!(op.accounts[i].address, *a);
        assert_eq!(op.accounts[i].is_signer, i == 1);
        assert_eq!(op.accounts[i].is_writable, i < 9);
    }
}

#[test]
fn sealed_bundle_needs_fee_payer_and_owner() {
    let p = protocol();
    let fee = addr(&key(1));
    let owner = addr(&key(2));
    let ops = build_bundle(&p, &fee, &owner, &addr(&key(3)), &addr(&key(4)), 5).unwrap();
    let b = seal_bundle(ops.clone(), fee, owner).unwrap();
    assert_eq!(b.signers, vec![fee, owner]);
    assert_eq!(b.fee_payer, fee);
    assert_eq!(b.operations, ops);
}

#[test]
fn bundle_missing_a_signer_is_refused() {
    let p = protocol();
    let fee = addr(&key(1));
    let owner = addr(&key(2));
    let ops = build_bundle(&p, &fee, &owner, &addr(&key(3)), &addr(&key(4)), 5).unwrap();
    assert_eq!(seal_bundle(ops.clone(), fee, fee), Err(SignerError::SameSigner));
    let without_owner: Vec<Operation> = ops[..2].to_vec();
    assert_eq!(seal_bundle(without_owner, fee, owner), Err(SignerError::OwnerNotRequired));
    let mut extra = ops.clone();
    extra[2].accounts[0].is_signer = true;
    assert_eq!(seal_bundle(extra, fee, owner), Err(SignerError::ExtraSigner));
}

#[test]
fn one_target_scenario() {
    let fee = key(1);
    let owner = key(2);
    let cfg = config(&fee, vec![target(&owner, "1000000.0")]);
    let plan = prepare(&cfg, 5).unwrap();
    assert_eq!(plan.fee_payer, addr(&fee));
    assert_eq!(plan.targets.len(), 1);
    assert_eq!(plan.targets[0].amount, 100000000000);
    assert_eq!(plan.targets[0].owner, addr(&owner));
    let b = plan.bundle_for(&protocol(), 0).unwrap();
    assert_eq!(b.operations.len(), 4);
    assert_eq!(b.signers, vec![addr(&fee), addr(&owner)]);
    assert_eq!(first_step(1), Step::Submit(0));
    assert_eq!(next_step(0, 1, true), Step::Pause);
}

#[test]
fn fee_payer_mismatch_halts_at_startup() {
    let fee = key(1);
    let mut cfg = config(&fee, vec![target(&key(2), "1.0")]);
    cfg.fee_payer_pubkey = key(9).pubkey().to_string();
    assert_eq!(prepare(&cfg, 5), Err(ConfigError::FeePayer(IdentityError::Mismatch)));
}

#[test]
fn target_errors_name_the_target() {
    let fee = key(1);
    let good = target(&key(2), "1.0");
    let mut mismatched = target(&key(3), "1.0");
    mismatched.owner_pubkey = key(4).pubkey().to_string();
    let cfg = config(&fee, vec![good.clone(), mismatched]);
    assert_eq!(prepare(&cfg, 5), Err(ConfigError::Owner(1, IdentityError::Mismatch)));
    let mut bad_receipt = target(&key(3), "1.0");
    bad_receipt.stake_receipt_pubkey = "xyz".to_string();
    assert_eq!(prepare(&config(&fee, vec![bad_receipt]), 5), Err(ConfigError::StakeReceipt(0)));
    let negative = target(&key(3), "-5");
    assert_eq!(
        prepare(&config(&fee, vec![good, negative]), 5),
        Err(ConfigError::Amount(1, AmountError::Negative))
    );
    let mut bad_forward = config(&fee, vec![]);
    bad_forward.forward_dest_pubkey = "0".to_string();
    assert_eq!(prepare(&bad_forward, 5), Err(ConfigError::ForwardOwner));
}

#[test]
fn owner_equal_to_fee_payer_gets_no_bundle() {
    let fee = key(1);
    let plan = prepare(&config(&fee, vec![target(&fee, "1")]), 5).unwrap();
    assert_eq!(
        plan.bundle_for(&protocol(), 0),
        Err(BundleError::Signers(SignerError::SameSigner))
    );
}

#[test]
fn failed_submission_moves_on_to_next_target() {
    assert_eq!(next_step(0, 3, false), Step::Submit(1));
    assert_eq!(next_step(0, 3, true), Step::Submit(1));
    assert_eq!(next_step(2, 3, false), Step::Pause);
    assert_eq!(first_step(0), Step::Pause);
}

use memeland_airdrop::{
    initialize_pool, record_claim, snapshot, unstake, ClaimAirdrop, ErrorCode, InitializePool,
    PoolState, Unstake, UserStake, AIRDROP_POOL, STAKING_POOL,
};

const START: i64 = 1_000_000;
const DAY: i64 = 86_400;
const CUSTODY: [u8; 32] = [0xC3; 32];

/// A small generator of numbers that looks random and is the same every time.
struct Dice(u64);

impl Dice {
    fn roll(&mut self, sides: u64) -> u64 {
        self.0 = self.0.wrapping_mul(6364136223846793005).wrapping_add(1442695040888963407);
        (self.0 >> 33) % sides
    }
}

fn user(n: u64) -> [u8; 32] {
    let mut key = [0u8; 32];
    key[..8].copy_from_slice(&n.to_le_bytes());
    key
}

fn new_pool(rewards: [u64; 20]) -> PoolState {
    let creation = InitializePool {
        admin: [0xA1; 32],
        token_mint: [0xB2; 32],
        pool_token_account: CUSTODY,
        pool_state_bump: 255,
        pool_token_bump: 254,
    };
    initialize_pool(&creation, START - 1, START, [0; 32], rewards).unwrap().0
}

/// The storage around the pool: the open stakes and the claim markers.
struct Storage {
    stakes: Vec<UserStake>,
    markers: Vec<[u8; 32]>,
    claimed: u64,
    rewards_paid: u64,
    principal_paid: u64,
}

fn open_principal(storage: &Storage) -> u64 {
    storage.stakes.iter().map(|s| s.staked_amount).sum()
}

fn run(seed: u64, rewards: [u64; 20], largest_claim: u64, steps: usize) -> (PoolState, Storage) {
    let mut dice = Dice(seed);
    let mut pool = new_pool(rewards);
    let mut storage =
        Storage { stakes: Vec::new(), markers: Vec::new(), claimed: 0, rewards_paid: 0, principal_paid: 0 };
    let mut now = START + 1;
    for _ in 0..steps {
        now += dice.roll(40_000) as i64;
        match dice.roll(4) {
            0 | 1 => {
                let who = user(dice.roll(25));
                let amount = 1 + dice.roll(largest_claim);
                let accounts = ClaimAirdrop {
                    user: who,
                    already_claimed: storage.markers.contains(&who),
                    claim_marker_bump: 1,
                    user_stake_bump: 2,
                };
                match record_claim(&mut pool, &accounts, now, amount, true) {
                    Ok((stake, _, _)) => {
                        assert!(!storage.markers.contains(&who));
                        storage.markers.push(who);
                        storage.stakes.push(stake);
                        storage.claimed += amount;
                    }
                    Err(code) => assert!(matches!(
                        code,
                        ErrorCode::AlreadyClaimed
                            | ErrorCode::SnapshotRequiredFirst
                            | ErrorCode::AirdropPoolExhausted
                            | ErrorCode::ProgramExpired
                    )),
                }
            }
            2 => {
                let _ = snapshot(&mut pool, now);
            }
            _ => {
                if storage.stakes.is_empty() {
                    continue;
                }
                let at = dice.roll(storage.stakes.len() as u64) as usize;
                let stake = storage.stakes[at];
                let accounts =
                    Unstake { user: stake.owner, user_stake: stake, pool_token_account: CUSTODY };
                match unstake(&mut pool, &accounts, now) {
                    Ok((event, payout)) => {
                        storage.stakes.remove(at);
                        storage.rewards_paid += event.rewards;
                        storage.principal_paid += event.principal;
                        assert_eq!(payout, event.principal + event.rewards);
                    }
                    Err(code) => assert_eq!(code, ErrorCode::SnapshotRequiredFirst),
                }
            }
        }
        let record = pool.record();
        assert_eq!(record.total_staked, open_principal(&storage));
        assert_eq!(record.total_airdrop_claimed, storage.claimed);
        assert_eq!(storage.claimed, open_principal(&storage) + storage.principal_paid);
        assert!(record.total_airdrop_claimed <= AIRDROP_POOL);
        assert!(storage.rewards_paid <= STAKING_POOL);
        let covered: u64 = rewards[..record.snapshot_count as usize].iter().sum();
        assert!(storage.rewards_paid <= covered);
    }
    (pool, storage)
}

fn everyone_exits(pool: &mut PoolState, storage: &mut Storage, now: i64) {
    while let Some(stake) = storage.stakes.pop() {
        let accounts = Unstake { user: stake.owner, user_stake: stake, pool_token_account: CUSTODY };
        let (event, _) = unstake(pool, &accounts, now).unwrap();
        storage.rewards_paid += event.rewards;
        storage.principal_paid += event.principal;
        assert!(storage.rewards_paid <= STAKING_POOL);
    }
    assert_eq!(pool.record().total_staked, 0);
    assert_eq!(storage.principal_paid, storage.claimed);
}

#[test]
fn long_run_with_even_rewards_stays_solvent() {
    let (mut pool, mut storage) = run(7, [STAKING_POOL / 20; 20], 1_000_000, 400);
    snapshot(&mut pool, START + 20 * DAY).unwrap();
    everyone_exits(&mut pool, &mut storage, START + 21 * DAY);
    assert!(storage.rewards_paid <= STAKING_POOL);
    assert!(storage.rewards_paid > 0);
}

#[test]
fn long_run_with_uneven_rewards_stays_solvent() {
    let mut rewards = [1u64; 20];
    rewards[0] = 7;
    rewards[3] = STAKING_POOL - 7 - 17 - 1_000_003;
    rewards[19] = 1_000_003;
    let (mut pool, mut storage) = run(99, rewards, 3, 300);
    snapshot(&mut pool, START + 25 * DAY).unwrap();
    everyone_exits(&mut pool, &mut storage, START + 26 * DAY);
    assert!(storage.rewards_paid <= STAKING_POOL);
}

#[test]
fn long_run_with_large_claims_stays_within_the_allowance() {
    let (mut pool, mut storage) = run(12345, [STAKING_POOL / 20; 20], AIRDROP_POOL / 3, 200);
    assert!(storage.claimed <= AIRDROP_POOL);
    everyone_exits(&mut pool, &mut storage, START + 36 * DAY);
    assert!(storage.rewards_paid <= STAKING_POOL);
}

#[test]
fn several_seeds_stay_solvent() {
    for seed in 0..20u64 {
        let (mut pool, mut storage) = run(seed, [STAKING_POOL / 20; 20], 50, 150);
        let _ = snapshot(&mut pool, START + 20 * DAY);
        everyone_exits(&mut pool, &mut storage, START + 20 * DAY + 1);
    }
}

#[test]
fn recipient_claims_once_even_after_an_exit() {
    let mut pool = new_pool([STAKING_POOL / 20; 20]);
    let who = user(1);
    let first =
        ClaimAirdrop { user: who, already_claimed: false, claim_marker_bump: 1, user_stake_bump: 2 };
    let (stake, _marker, _) = record_claim(&mut pool, &first, START + 1, 10, true).unwrap();
    let markers = vec![who];
    let accounts = Unstake { user: who, user_stake: stake, pool_token_account: CUSTODY };
    unstake(&mut pool, &accounts, START + 2).unwrap();
    let second = ClaimAirdrop { already_claimed: markers.contains(&who), ..first };
    assert_eq!(
        record_claim(&mut pool, &second, START + 3, 10, true).err(),
        Some(ErrorCode::AlreadyClaimed)
    );
    assert_eq!(pool.record().total_airdrop_claimed, 10);
}

//! Whole-state entry points: each takes a ledger by value with plain inputs
//! and hands back the new ledger or an error.
use vstd::prelude::*;
use crate::hasher::{decimal, decimal_string, has_zero_prefix};
use crate::ledger::{
    admissible, block_content, chain_valid, current_timestamp, digest_with_nonce, is_candidate, is_genesis,
    is_reward, no_nonce_meets, sealed, Block, Blockchain, LedgerError, Transaction,
    MAX_TRANSACTIONS,
};

verus! {

/// The identifier of a transaction of `from` made at `timestamp`.
pub open spec fn transaction_id(from: Seq<char>, timestamp: u64) -> Seq<char> {
    "tx-"@ + from + "-"@ + decimal(timestamp as nat)
}

/// The placeholder signature of transaction `id` under `private_key`.
pub open spec fn placeholder_signature(private_key: Seq<char>, id: Seq<char>) -> Seq<char> {
    "SIG_"@ + private_key + "_"@ + id
}

/// The version of this library.
pub fn get_version() -> (r: String)
    ensures
        r@ == "0.1.0"@,
{
    String::from_str("0.1.0")
}

/// A new ledger holding only its genesis block.
pub fn create_blockchain(node_url: &str, difficulty: u64, mining_reward: u64) -> (r: Blockchain)
    ensures
        r.wf(),
        r.chain@.len() == 1,
        is_genesis(r.chain@[0], difficulty),
        chain_valid(r.chain@),
        r.history().len() == 0,
        r.pending_transactions@.len() == 0,
        r.difficulty == difficulty,
        r.mining_reward == mining_reward,
        r.node_url@ == node_url@,
        r.peers@.len() == 0,
{
    Blockchain::new(node_url, difficulty, mining_reward)
}

/// A transaction of `from`, stamped `timestamp`, with its identifier and
/// placeholder signature.
pub fn make_transaction(
    from: &str,
    to: &str,
    amount: u64,
    fee: u64,
    private_key: &str,
    timestamp: u64,
) -> (r: Transaction)
    ensures
        r.id@ == transaction_id(from@, timestamp),
        r.from@ == from@,
        r.to@ == to@,
        r.amount == amount,
        r.fee == fee,
        r.timestamp == timestamp,
        r.signature@ == placeholder_signature(private_key@, r.id@),
        r.signature@.len() > 0,
{
    let mut id = String::from_str("tx-");
    id.append(from);
    id.append("-");
    id.append(decimal_string(timestamp).as_str());
    let mut signature = String::from_str("SIG_");
    signature.append(private_key);
    signature.append("_");
    signature.append(id.as_str());
    proof {
        reveal_strlit("SIG_");
    }
    assert(signature@.len() > 0);
    Transaction {
        id,
        from: from.to_owned(),
        to: to.to_owned(),
        amount,
        fee,
        timestamp,
        signature,
    }
}

/// Submits a transfer to `blockchain`: the new ledger, or the error with the
/// ledger left as it was.
pub fn create_transaction(
    blockchain: Blockchain,
    from: &str,
    to: &str,
    amount: u64,
    fee: u64,
    private_key: &str,
) -> (r: Result<Blockchain, LedgerError>)
    requires
        blockchain.wf(),
        blockchain.history().len() < MAX_TRANSACTIONS,
    ensures
        r is Ok <==> (from@ == seq!['0'] || blockchain.balance_of(from@) >= amount + fee),
        r is Err ==> r == Err::<Blockchain, LedgerError>(LedgerError::InvalidTransaction),
        r matches Ok(b) ==> {
            &&& b.wf()
            &&& b.chain == blockchain.chain
            &&& b.pending_transactions@.drop_last() == blockchain.pending_transactions@
            &&& b.pending_transactions@.len() == blockchain.pending_transactions@.len() + 1
            &&& b.pending_transactions@.last().from@ == from@
            &&& b.pending_transactions@.last().to@ == to@
            &&& b.pending_transactions@.last().amount == amount
            &&& b.pending_transactions@.last().fee == fee
            &&& b.pending_transactions@.last().id@ == transaction_id(
                from@,
                b.pending_transactions@.last().timestamp,
            )
            &&& b.pending_transactions@.last().signature@ == placeholder_signature(
                private_key@,
                b.pending_transactions@.last().id@,
            )
            &&& b.difficulty == blockchain.difficulty
            &&& b.mining_reward == blockchain.mining_reward
            &&& b.node_url == blockchain.node_url
            &&& b.peers == blockchain.peers
        },
{
    let ghost before = blockchain;
    let mut blockchain = blockchain;
    let transaction = make_transaction(from, to, amount, fee, private_key, current_timestamp());
    assert(admissible(transaction, blockchain.balance_of(from@)) <==> (from@ == seq!['0']
        || blockchain.balance_of(from@) >= amount + fee));
    match blockchain.create_transaction(transaction) {
        Ok(()) => {
            assert(blockchain.pending_transactions@.drop_last() =~= before.pending_transactions@);
            Ok(blockchain)
        },
        Err(e) => Err(e),
    }
}

/// Mines the queue of `blockchain` with the reward to `mining_reward_address`:
/// the new ledger, or the error with the ledger left as it was.
pub fn mine_pending_transactions(blockchain: Blockchain, mining_reward_address: &str) -> (r: Result<
    Blockchain,
    LedgerError,
>)
    requires
        blockchain.wf(),
        blockchain.history().len() < MAX_TRANSACTIONS,
    ensures
        blockchain.pending_transactions@.len() == 0 ==> r == Err::<Blockchain, LedgerError>(
            LedgerError::NoPendingTransactions,
        ),
        r is Err ==> blockchain.pending_transactions@.len() == 0 || r == Err::<
            Blockchain,
            LedgerError,
        >(LedgerError::NonceSpaceExhausted),
        r == Err::<Blockchain, LedgerError>(LedgerError::NonceSpaceExhausted) ==> {
            &&& blockchain.pending_transactions@.len() > 0
            &&& exists|c: Block| #[trigger]
                is_candidate(c, blockchain, mining_reward_address@) && no_nonce_meets(c)
        },
        r matches Ok(b) ==> {
            &&& blockchain.pending_transactions@.len() > 0
            &&& b.wf()
            &&& b.chain@.len() == blockchain.chain@.len() + 1
            &&& b.chain@.drop_last() == blockchain.chain@
            &&& b.pending_transactions@.len() == 0
            &&& b.chain@.last().index == blockchain.chain@.len()
            &&& b.chain@.last().previous_hash@ == blockchain.chain@.last().hash@
            &&& b.chain@.last().difficulty == blockchain.difficulty
            &&& b.chain@.last().transactions@.drop_last() == blockchain.pending_transactions@
            &&& b.chain@.last().transactions@.len() == blockchain.pending_transactions@.len() + 1
            &&& is_reward(
                b.chain@.last().transactions@.last(),
                mining_reward_address@,
                blockchain.mining_reward,
            )
            &&& sealed(b.chain@.last())
            &&& forall|n: u64|
                n < b.chain@.last().nonce ==> !has_zero_prefix(
                    #[trigger] digest_with_nonce(b.chain@.last(), n),
                    b.chain@.last().difficulty as nat,
                )
            &&& b.history() == blockchain.history().push(b.chain@.last().transactions@.last())
            &&& chain_valid(blockchain.chain@) ==> chain_valid(b.chain@)
            &&& b.difficulty == blockchain.difficulty
            &&& b.mining_reward == blockchain.mining_reward
            &&& b.node_url == blockchain.node_url
            &&& b.peers == blockchain.peers
        },
{
    let mut blockchain = blockchain;
    match blockchain.mine_pending_transactions(mining_reward_address) {
        Ok(mined) => {
            proof {
                let last = blockchain.chain@.last();
                assert(block_content(last) == block_content(mined));
                assert forall|n: u64| n < last.nonce implies !has_zero_prefix(
                    #[trigger] digest_with_nonce(last, n),
                    last.difficulty as nat,
                ) by {
                    assert(digest_with_nonce(last, n) == digest_with_nonce(mined, n));
                }
            }
            Ok(blockchain)
        },
        Err(e) => Err(e),
    }
}

/// The balance of `address` in `blockchain`.
pub fn get_wallet_balance(blockchain: &Blockchain, address: &str) -> (r: i128)
    requires
        blockchain.wf(),
    ensures
        r as int == blockchain.balance_of(address@),
{
    blockchain.get_address_balance(address)
}

/// Whether the chain of `blockchain` is intact.
pub fn is_blockchain_valid(blockchain: &Blockchain) -> (r: bool)
    ensures
        r == chain_valid(blockchain.chain@),
{
    blockchain.is_chain_valid()
}

} // verus!

//! The ledger: a hash-linked chain of sealed blocks, a queue of pending
//! transactions, balances by replay, admission of transactions, mining by
//! proof of work and the integrity walk over the chain.
use vstd::prelude::*;
use crate::hasher::{
    decimal, decimal_string, has_zero_prefix, json_quoted, json_quoted_of, meets_difficulty,
    sha256_hex, sha256_hex_of, zero_run, zeros,
};

verus! {

/// The most transactions that a ledger holds, mined and pending together.
pub const MAX_TRANSACTIONS: u64 = 0x1_0000_0000;

/// A transfer of `amount` from `from` to `to`, with `fee` charged to the sender.
/// The address `"0"` is the mint, which issues rewards.
pub struct Transaction {
    pub id: String,
    pub from: String,
    pub to: String,
    pub amount: u64,
    pub fee: u64,
    pub timestamp: u64,
    pub signature: String,
}

/// A block of the chain; `hash` is empty only before the block is sealed.
pub struct Block {
    pub index: u64,
    pub timestamp: u64,
    pub transactions: Vec<Transaction>,
    pub previous_hash: String,
    pub hash: String,
    pub nonce: u64,
    pub difficulty: u64,
}

/// The chain, the queue of transactions waiting for the next block, and the
/// rules that the next block is mined under.
pub struct Blockchain {
    pub chain: Vec<Block>,
    pub pending_transactions: Vec<Transaction>,
    pub difficulty: u64,
    pub mining_reward: u64,
    pub node_url: String,
    pub peers: Vec<String>,
}

#[derive(Clone, Copy, Debug, PartialEq, Eq, Structural)]
pub enum LedgerError {
    /// Empty signature, or a sender other than the mint without the funds.
    InvalidTransaction,
    /// Mining was asked for with an empty queue.
    NoPendingTransactions,
    /// No nonce of the whole nonce space met the difficulty.
    NonceSpaceExhausted,
}

pub open spec fn mint_address() -> Seq<char> {
    seq!['0']
}

/// What `t` does to the balance of `addr`: credit when it is the recipient,
/// debit of amount and fee when it is the sender.
pub open spec fn delta(t: Transaction, addr: Seq<char>) -> int {
    (if t.to@ == addr { t.amount as int } else { 0 }) - (if t.from@ == addr {
        t.amount as int + t.fee as int
    } else {
        0
    })
}

/// The balance of `addr` after the transactions `txs`, in order, from zero.
pub open spec fn replay(txs: Seq<Transaction>, addr: Seq<char>) -> int
    decreases txs.len(),
{
    if txs.len() == 0 {
        0
    } else {
        replay(txs.drop_last(), addr) + delta(txs.last(), addr)
    }
}

/// The transactions of `blocks`, block after block.
pub open spec fn flatten(blocks: Seq<Block>) -> Seq<Transaction>
    decreases blocks.len(),
{
    if blocks.len() == 0 {
        Seq::empty()
    } else {
        flatten(blocks.drop_last()) + blocks.last().transactions@
    }
}

/// Whether `t` may enter the queue when its sender's balance is `balance`.
pub open spec fn admissible(t: Transaction, balance: int) -> bool {
    t.signature@.len() > 0 && (t.from@ == mint_address() || balance >= t.amount as int
        + t.fee as int)
}

/// The JSON object of a transaction, fields in declaration order.
pub open spec fn transaction_json(t: Transaction) -> Seq<char> {
    "{\"id\":"@ + json_quoted_of(t.id@) + ",\"from\":"@ + json_quoted_of(t.from@) + ",\"to\":"@
        + json_quoted_of(t.to@) + ",\"amount\":"@ + decimal(t.amount as nat) + ",\"fee\":"@
        + decimal(t.fee as nat) + ",\"timestamp\":"@ + decimal(t.timestamp as nat)
        + ",\"signature\":"@ + json_quoted_of(t.signature@) + "}"@
}

/// The JSON objects of `txs`, separated by commas.
pub open spec fn transaction_items(txs: Seq<Transaction>) -> Seq<char>
    decreases txs.len(),
{
    if txs.len() == 0 {
        Seq::empty()
    } else if txs.len() == 1 {
        transaction_json(txs[0])
    } else {
        transaction_items(txs.drop_last()) + ","@ + transaction_json(txs.last())
    }
}

/// The JSON array of `txs`.
pub open spec fn transactions_json(txs: Seq<Transaction>) -> Seq<char> {
    "["@ + transaction_items(txs) + "]"@
}

/// The part of a block's hashed text that the nonce search holds fixed.
pub open spec fn block_content(b: Block) -> Seq<char> {
    decimal(b.index as nat) + b.previous_hash@ + transactions_json(b.transactions@) + decimal(
        b.timestamp as nat,
    )
}

/// The digest of a block's content followed by `nonce`.
pub open spec fn digest_with_nonce(b: Block, nonce: u64) -> Seq<char> {
    sha256_hex_of(block_content(b) + decimal(nonce as nat))
}

/// `b` carries the digest of its content and nonce, and that digest meets
/// the block's difficulty.
pub open spec fn sealed(b: Block) -> bool {
    b.hash@ == digest_with_nonce(b, b.nonce) && has_zero_prefix(b.hash@, b.difficulty as nat)
}

/// Every block after the first carries the digest of its own content and
/// nonce, and the hash of the block before it.
pub open spec fn chain_valid(chain: Seq<Block>) -> bool {
    forall|i: int|
        1 <= i < chain.len() ==> {
            &&& (#[trigger] chain[i]).hash@ == digest_with_nonce(chain[i], chain[i].nonce)
            &&& chain[i].previous_hash@ == chain[i - 1].hash@
        }
}

/// `b` holds what `a` holds.
pub open spec fn same_block(a: Block, b: Block) -> bool {
    &&& same_but_seal(a, b)
    &&& b.hash == a.hash
    &&& b.nonce == a.nonce
}

/// `b` is `a` with another nonce and hash.
pub open spec fn same_but_seal(a: Block, b: Block) -> bool {
    &&& b.index == a.index
    &&& b.timestamp == a.timestamp
    &&& b.transactions@ == a.transactions@
    &&& b.previous_hash == a.previous_hash
    &&& b.difficulty == a.difficulty
}

pub proof fn lemma_replay_bound(txs: Seq<Transaction>, addr: Seq<char>)
    ensures
        -(txs.len() as int) * 0x2_0000_0000_0000_0000 <= replay(txs, addr) <= (txs.len() as int)
            * 0x2_0000_0000_0000_0000,
    decreases txs.len(),
{
    if txs.len() > 0 {
        lemma_replay_bound(txs.drop_last(), addr);
    }
}

pub proof fn lemma_flatten_prefix_len(blocks: Seq<Block>, i: int)
    requires
        0 <= i <= blocks.len(),
    ensures
        flatten(blocks.take(i)).len() <= flatten(blocks).len(),
    decreases blocks.len(),
{
    if i < blocks.len() {
        assert(blocks.take(i) =~= blocks.drop_last().take(i));
        lemma_flatten_prefix_len(blocks.drop_last(), i);
    } else {
        assert(blocks.take(i) =~= blocks);
    }
}

impl Transaction {
    /// A field-by-field copy.
    pub fn copy(&self) -> (r: Transaction)
        ensures
            r == *self,
    {
        Transaction {
            id: self.id.clone(),
            from: self.from.clone(),
            to: self.to.clone(),
            amount: self.amount,
            fee: self.fee,
            timestamp: self.timestamp,
            signature: self.signature.clone(),
        }
    }

    /// The JSON object of this transaction.
    pub fn to_json(&self) -> (r: String)
        ensures
            r@ == transaction_json(*self),
    {
        let mut s = String::from_str("{\"id\":");
        s.append(json_quoted(self.id.as_str()).as_str());
        s.append(",\"from\":");
        s.append(json_quoted(self.from.as_str()).as_str());
        s.append(",\"to\":");
        s.append(json_quoted(self.to.as_str()).as_str());
        s.append(",\"amount\":");
        s.append(decimal_string(self.amount).as_str());
        s.append(",\"fee\":");
        s.append(decimal_string(self.fee).as_str());
        s.append(",\"timestamp\":");
        s.append(decimal_string(self.timestamp).as_str());
        s.append(",\"signature\":");
        s.append(json_quoted(self.signature.as_str()).as_str());
        s.append("}");
        assert(s@ =~= transaction_json(*self));
        s
    }
}

/// A copy of a list of transactions.
pub fn copy_transactions(v: &Vec<Transaction>) -> (r: Vec<Transaction>)
    ensures
        r@ == v@,
{
    let mut r: Vec<Transaction> = Vec::new();
    let mut i: usize = 0;
    while i < v.len()
        invariant
            i <= v@.len(),
            r@ == v@.take(i as int),
        decreases v@.len() - i,
    {
        r.push(v[i].copy());
        i = i + 1;
        assert(r@ =~= v@.take(i as int));
    }
    assert(v@.take(v@.len() as int) =~= v@);
    r
}

/// The JSON array of a list of transactions.
pub fn transactions_to_json(txs: &Vec<Transaction>) -> (r: String)
    ensures
        r@ == transactions_json(txs@),
{
    let mut items = String::new();
    let mut i: usize = 0;
    while i < txs.len()
        invariant
            i <= txs@.len(),
            items@ == transaction_items(txs@.take(i as int)),
        decreases txs@.len() - i,
    {
        let ghost before = txs@.take(i as int);
        if i > 0 {
            items.append(",");
        }
        items.append(txs[i].to_json().as_str());
        i = i + 1;
        assert(txs@.take(i as int).drop_last() =~= before);
        assert(items@ =~= transaction_items(txs@.take(i as int)));
    }
    assert(txs@.take(txs@.len() as int) =~= txs@);
    let mut s = String::from_str("[");
    s.append(items.as_str());
    s.append("]");
    s
}

impl Block {
    /// A field-by-field copy.
    pub fn copy(&self) -> (r: Block)
        ensures
            same_block(*self, r),
    {
        let txs = copy_transactions(&self.transactions);
        let r = Block {
            index: self.index,
            timestamp: self.timestamp,
            transactions: txs,
            previous_hash: self.previous_hash.clone(),
            hash: self.hash.clone(),
            nonce: self.nonce,
            difficulty: self.difficulty,
        };
        assert(r.transactions@ =~= self.transactions@);
        r
    }

    /// The text that the nonce search holds fixed: index, previous hash,
    /// transactions as JSON and timestamp.
    pub fn content(&self) -> (r: String)
        ensures
            r@ == block_content(*self),
    {
        let mut s = decimal_string(self.index);
        s.append(self.previous_hash.as_str());
        s.append(transactions_to_json(&self.transactions).as_str());
        s.append(decimal_string(self.timestamp).as_str());
        s
    }
}

/// Relies on std::time::SystemTime: the seconds since the Unix epoch, or zero
/// for a clock set before it. Nothing is known of the value.
#[verifier::external_body]
pub(crate) fn current_timestamp() -> (r: u64) {
    match std::time::SystemTime::now().duration_since(std::time::UNIX_EPOCH) {
        Ok(d) => d.as_secs(),
        Err(_) => 0,
    }
}

/// The reward that the mint pays to `addr` for a block.
pub open spec fn is_reward(t: Transaction, addr: Seq<char>, reward: u64) -> bool {
    &&& t.from@ == mint_address()
    &&& t.to@ == addr
    &&& t.amount == reward
    &&& t.fee == 0
    &&& t.signature@ == seq!['S', 'Y', 'S', 'T', 'E', 'M']
}

/// `c` is the block that mining `l` with the reward to `addr` seals: the
/// next index, linked to the last hash, the queue then the reward, under the
/// ledger's difficulty.
pub open spec fn is_candidate(c: Block, l: Blockchain, addr: Seq<char>) -> bool {
    &&& c.index == l.chain@.len()
    &&& c.previous_hash@ == l.chain@.last().hash@
    &&& c.difficulty == l.difficulty
    &&& c.transactions@.drop_last() == l.pending_transactions@
    &&& c.transactions@.len() == l.pending_transactions@.len() + 1
    &&& is_reward(c.transactions@.last(), addr, l.mining_reward)
}

/// No nonce of the whole `u64` range gives `c` a digest that meets its
/// difficulty.
pub open spec fn no_nonce_meets(c: Block) -> bool {
    forall|n: u64| !has_zero_prefix(#[trigger] digest_with_nonce(c, n), c.difficulty as nat)
}

/// The genesis block: index 0, no transactions, nonce 0, both hashes 64 zeros.
pub open spec fn is_genesis(b: Block, difficulty: u64) -> bool {
    &&& b.index == 0
    &&& b.transactions@.len() == 0
    &&& b.previous_hash@ == zero_run(64)
    &&& b.hash@ == zero_run(64)
    &&& b.nonce == 0
    &&& b.difficulty == difficulty
}

impl Blockchain {
    /// Every transaction, those of the chain block after block, then the queue.
    pub open spec fn history(&self) -> Seq<Transaction> {
        flatten(self.chain@) + self.pending_transactions@
    }

    /// The balance of `addr` by replay of the whole history.
    pub open spec fn balance_of(&self, addr: Seq<char>) -> int {
        replay(self.history(), addr)
    }

    pub open spec fn peer_views(&self) -> Seq<Seq<char>> {
        self.peers@.map_values(|p: String| p@)
    }

    /// The chain is never empty, starts with the genesis block, numbers its
    /// blocks by position, and holds a bounded number of transactions.
    pub open spec fn wf(&self) -> bool {
        &&& self.chain@.len() >= 1
        &&& self.chain@[0].previous_hash@ == zero_run(64)
        &&& self.chain@[0].hash@ == zero_run(64)
        &&& forall|i: int| 0 <= i < self.chain@.len() ==> (#[trigger] self.chain@[i]).index == i
        &&& self.history().len() <= MAX_TRANSACTIONS
    }

    /// The number of transactions of the history, or `MAX_TRANSACTIONS + 1`
    /// where it holds more than `MAX_TRANSACTIONS`.
    fn history_len_capped(&self) -> (r: u64)
        ensures
            r <= MAX_TRANSACTIONS ==> r == self.history().len(),
            r > MAX_TRANSACTIONS ==> r == MAX_TRANSACTIONS + 1 && self.history().len()
                > MAX_TRANSACTIONS,
    {
        let mut count: u64 = 0;
        let mut i: usize = 0;
        proof {
            assert(flatten(self.chain@.take(0)) =~= Seq::<Transaction>::empty());
        }
        while i < self.chain.len()
            invariant
                i <= self.chain@.len(),
                count <= MAX_TRANSACTIONS,
                count == flatten(self.chain@.take(i as int)).len(),
            decreases self.chain@.len() - i,
        {
            proof {
                lemma_flatten_prefix_len(self.chain@, i + 1);
                assert(self.chain@.take(i + 1).drop_last() =~= self.chain@.take(i as int));
            }
            let n = self.chain[i].transactions.len();
            if n as u64 > MAX_TRANSACTIONS - count {
                return MAX_TRANSACTIONS + 1;
            }
            count = count + n as u64;
            i = i + 1;
        }
        proof {
            assert(self.chain@.take(self.chain@.len() as int) =~= self.chain@);
        }
        let n = self.pending_transactions.len();
        if n as u64 > MAX_TRANSACTIONS - count {
            return MAX_TRANSACTIONS + 1;
        }
        count + n as u64
    }

    /// Whether the ledger is well formed.
    pub fn is_well_formed(&self) -> (r: bool)
        ensures
            r == self.wf(),
    {
        if self.chain.len() == 0 {
            return false;
        }
        let zero_hash = zeros(64);
        if !(self.chain[0].previous_hash == zero_hash) || !(self.chain[0].hash == zero_hash) {
            return false;
        }
        let mut i: usize = 0;
        while i < self.chain.len()
            invariant
                i <= self.chain@.len(),
                forall|j: int| 0 <= j < i ==> (#[trigger] self.chain@[j]).index == j,
            decreases self.chain@.len() - i,
        {
            if self.chain[i].index != i as u64 {
                return false;
            }
            i = i + 1;
        }
        self.history_len_capped() <= MAX_TRANSACTIONS
    }

    /// Whether the ledger is well formed and has room for one more
    /// transaction, as submitting and mining ask.
    pub fn has_room(&self) -> (r: bool)
        ensures
            r == (self.wf() && self.history().len() < MAX_TRANSACTIONS),
    {
        self.is_well_formed() && self.history_len_capped() < MAX_TRANSACTIONS
    }

    /// A ledger holding only the genesis block.
    pub fn new(node_url: &str, difficulty: u64, mining_reward: u64) -> (r: Self)
        ensures
            r.wf(),
            r.chain@.len() == 1,
            is_genesis(r.chain@[0], difficulty),
            r.history().len() == 0,
            chain_valid(r.chain@),
            r.pending_transactions@.len() == 0,
            r.difficulty == difficulty,
            r.mining_reward == mining_reward,
            r.node_url@ == node_url@,
            r.peers@.len() == 0,
    {
        let mut blockchain = Blockchain {
            chain: Vec::new(),
            pending_transactions: Vec::new(),
            difficulty,
            mining_reward,
            node_url: node_url.to_owned(),
            peers: Vec::new(),
        };
        blockchain.create_genesis_block();
        proof {
            assert(blockchain.chain@.drop_last() =~= Seq::<Block>::empty());
            assert(flatten(blockchain.chain@.drop_last()) =~= Seq::<Transaction>::empty());
            assert(flatten(blockchain.chain@) =~= Seq::<Transaction>::empty());
            assert(blockchain.history() =~= Seq::<Transaction>::empty());
        }
        blockchain
    }

    fn create_genesis_block(&mut self)
        ensures
            final(self).chain@.len() == old(self).chain@.len() + 1,
            final(self).chain@.drop_last() == old(self).chain@,
            is_genesis(final(self).chain@.last(), old(self).difficulty),
            final(self).pending_transactions == old(self).pending_transactions,
            final(self).difficulty == old(self).difficulty,
            final(self).mining_reward == old(self).mining_reward,
            final(self).node_url == old(self).node_url,
            final(self).peers == old(self).peers,
    {
        let genesis_block = Block {
            index: 0,
            timestamp: current_timestamp(),
            transactions: Vec::new(),
            previous_hash: zeros(64),
            hash: zeros(64),
            nonce: 0,
            difficulty: self.difficulty,
        };
        self.chain.push(genesis_block);
        assert(self.chain@.drop_last() =~= old(self).chain@);
    }

    /// The last block of the chain.
    pub fn get_latest_block(&self) -> (r: &Block)
        requires
            self.chain@.len() > 0,
        ensures
            *r == self.chain@.last(),
    {
        &self.chain[self.chain.len() - 1]
    }

    /// The balance of `address`: what it received less what it sent and paid
    /// in fees, over the chain and then the queue.
    pub fn get_address_balance(&self, address: &str) -> (r: i128)
        requires
            self.wf(),
        ensures
            r as int == self.balance_of(address@),
    {
        let addr = address.to_owned();
        let mut balance: i128 = 0;
        let mut i: usize = 0;
        proof {
            assert(flatten(self.chain@.take(0)) =~= Seq::<Transaction>::empty());
        }
        while i < self.chain.len()
            invariant
                self.wf(),
                addr@ == address@,
                i <= self.chain@.len(),
                balance as int == replay(flatten(self.chain@.take(i as int)), addr@),
            decreases self.chain@.len() - i,
        {
            let block = &self.chain[i];
            let ghost done = flatten(self.chain@.take(i as int));
            proof {
                lemma_flatten_prefix_len(self.chain@, i + 1);
                assert(self.chain@.take(i + 1).drop_last() =~= self.chain@.take(i as int));
                assert(done + block.transactions@.take(0) =~= done);
            }
            let mut j: usize = 0;
            while j < block.transactions.len()
                invariant
                    self.wf(),
                    i < self.chain@.len(),
                    *block == self.chain@[i as int],
                    addr@ == address@,
                    j <= block.transactions@.len(),
                    done == flatten(self.chain@.take(i as int)),
                    flatten(self.chain@.take(i + 1)) == done + block.transactions@,
                    flatten(self.chain@.take(i + 1)).len() <= flatten(self.chain@).len(),
                    balance as int == replay(done + block.transactions@.take(j as int), addr@),
                decreases block.transactions@.len() - j,
            {
                let tx = &block.transactions[j];
                let ghost prev = done + block.transactions@.take(j as int);
                let ghost next = done + block.transactions@.take(j + 1);
                proof {
                    assert(next.drop_last() =~= prev);
                    lemma_replay_bound(prev, addr@);
                    lemma_replay_bound(next, addr@);
                }
                if tx.to == addr {
                    balance = balance + tx.amount as i128;
                }
                if tx.from == addr {
                    balance = balance - (tx.amount as i128 + tx.fee as i128);
                }
                j = j + 1;
            }
            proof {
                assert(block.transactions@.take(block.transactions@.len() as int)
                    =~= block.transactions@);
            }
            i = i + 1;
        }
        proof {
            assert(self.chain@.take(self.chain@.len() as int) =~= self.chain@);
            assert(flatten(self.chain@) + self.pending_transactions@.take(0) =~= flatten(
                self.chain@,
            ));
        }
        let mut k: usize = 0;
        while k < self.pending_transactions.len()
            invariant
                self.wf(),
                addr@ == address@,
                k <= self.pending_transactions@.len(),
                balance as int == replay(
                    flatten(self.chain@) + self.pending_transactions@.take(k as int),
                    addr@,
                ),
            decreases self.pending_transactions@.len() - k,
        {
            let tx = &self.pending_transactions[k];
            let ghost prev = flatten(self.chain@) + self.pending_transactions@.take(k as int);
            let ghost next = flatten(self.chain@) + self.pending_transactions@.take(k + 1);
            proof {
                assert(next.drop_last() =~= prev);
                lemma_replay_bound(prev, addr@);
                lemma_replay_bound(next, addr@);
            }
            if tx.to == addr {
                balance = balance + tx.amount as i128;
            }
            if tx.from == addr {
                balance = balance - (tx.amount as i128 + tx.fee as i128);
            }
            k = k + 1;
        }
        proof {
            assert(self.pending_transactions@.take(self.pending_transactions@.len() as int)
                =~= self.pending_transactions@);
        }
        balance
    }

    /// Whether `transaction` is admissible against its sender's current balance.
    fn verify_transaction(&self, transaction: &Transaction) -> (r: bool)
        requires
            self.wf(),
        ensures
            r == admissible(*transaction, self.balance_of(transaction.from@)),
    {
        if transaction.signature.as_str().is_empty() {
            return false;
        }
        let balance = self.get_address_balance(transaction.from.as_str());
        proof {
            reveal_strlit("0");
        }
        let mint = String::from_str("0");
        assert(mint@ =~= mint_address());
        if !(transaction.from == mint) && balance < transaction.amount as i128
            + transaction.fee as i128 {
            return false;
        }
        true
    }

    /// Queues `transaction` if it is admissible; otherwise leaves the ledger as
    /// it was.
    pub fn create_transaction(&mut self, transaction: Transaction) -> (r: Result<(), LedgerError>)
        requires
            old(self).wf(),
            old(self).history().len() < MAX_TRANSACTIONS,
        ensures
            final(self).wf(),
            r is Ok <==> admissible(transaction, old(self).balance_of(transaction.from@)),
            chain_valid(old(self).chain@) ==> chain_valid(final(self).chain@),
            r is Ok ==> {
                &&& final(self).pending_transactions@ == old(self).pending_transactions@.push(transaction)
                &&& final(self).history() == old(self).history().push(transaction)
                &&& final(self).chain == old(self).chain
                &&& final(self).difficulty == old(self).difficulty
                &&& final(self).mining_reward == old(self).mining_reward
                &&& final(self).node_url == old(self).node_url
                &&& final(self).peers == old(self).peers
            },
            r is Err ==> r == Err::<(), LedgerError>(LedgerError::InvalidTransaction),
            r is Err ==> *final(self) == *old(self),
    {
        if !self.verify_transaction(&transaction) {
            return Err(LedgerError::InvalidTransaction);
        }
        self.pending_transactions.push(transaction);
        assert(self.history() =~= old(self).history().push(transaction));
        Ok(())
    }

    /// Seals `block`: the first nonce from zero up whose digest meets the
    /// block's difficulty, with that digest as the block's hash.
    fn proof_of_work(&self, block: Block) -> (r: Result<Block, LedgerError>)
        ensures
            match r {
                Ok(b) => {
                    &&& same_but_seal(block, b)
                    &&& sealed(b)
                    &&& forall|n: u64|
                        n < b.nonce ==> !has_zero_prefix(
                            #[trigger] digest_with_nonce(block, n),
                            block.difficulty as nat,
                        )
                },
                Err(e) => {
                    &&& e == LedgerError::NonceSpaceExhausted
                    &&& forall|n: u64|
                        !has_zero_prefix(
                            #[trigger] digest_with_nonce(block, n),
                            block.difficulty as nat,
                        )
                },
            },
    {
        let content = block.content();
        let mut nonce: u64 = 0;
        loop
            invariant
                content@ == block_content(block),
                forall|n: u64|
                    n < nonce ==> !has_zero_prefix(
                        #[trigger] digest_with_nonce(block, n),
                        block.difficulty as nat,
                    ),
            decreases u64::MAX - nonce,
        {
            let mut data = content.clone();
            data.append(decimal_string(nonce).as_str());
            let hash = sha256_hex(&data);
            if meets_difficulty(&hash, block.difficulty) {
                let ghost original = block;
                let mut sealed_block = block;
                sealed_block.nonce = nonce;
                sealed_block.hash = hash;
                assert(same_but_seal(original, sealed_block));
                assert(block_content(sealed_block) == block_content(original));
                return Ok(sealed_block);
            }
            if nonce == u64::MAX {
                return Err(LedgerError::NonceSpaceExhausted);
            }
            nonce = nonce + 1;
        }
    }

    /// Mines the queue into a new block, with the mint's reward to
    /// `mining_reward_address` last, and appends the block to the chain.
    pub fn mine_pending_transactions(&mut self, mining_reward_address: &str) -> (r: Result<
        Block,
        LedgerError,
    >)
        requires
            old(self).wf(),
            old(self).history().len() < MAX_TRANSACTIONS,
        ensures
            final(self).wf(),
            old(self).pending_transactions@.len() == 0 ==> r == Err::<Block, LedgerError>(
                LedgerError::NoPendingTransactions,
            ),
            r is Err ==> *final(self) == *old(self),
            r is Err ==> old(self).pending_transactions@.len() == 0 || r == Err::<
                Block,
                LedgerError,
            >(LedgerError::NonceSpaceExhausted),
            r == Err::<Block, LedgerError>(LedgerError::NonceSpaceExhausted) ==> {
                &&& old(self).pending_transactions@.len() > 0
                &&& exists|c: Block| #[trigger]
                    is_candidate(c, *old(self), mining_reward_address@) && no_nonce_meets(c)
            },
            r matches Ok(b) ==> {
                &&& old(self).pending_transactions@.len() > 0
                &&& final(self).chain@.drop_last() == old(self).chain@
                &&& same_block(b, final(self).chain@.last())
                &&& final(self).pending_transactions@.len() == 0
                &&& b.index == old(self).chain@.len()
                &&& b.previous_hash@ == old(self).chain@.last().hash@
                &&& b.difficulty == old(self).difficulty
                &&& b.transactions@.drop_last() == old(self).pending_transactions@
                &&& b.transactions@.len() == old(self).pending_transactions@.len() + 1
                &&& is_reward(
                    b.transactions@.last(),
                    mining_reward_address@,
                    old(self).mining_reward,
                )
                &&& sealed(b)
                &&& forall|n: u64|
                    n < b.nonce ==> !has_zero_prefix(
                        #[trigger] digest_with_nonce(b, n),
                        b.difficulty as nat,
                    )
                &&& final(self).history() == old(self).history().push(b.transactions@.last())
                &&& chain_valid(old(self).chain@) ==> chain_valid(final(self).chain@)
                &&& final(self).difficulty == old(self).difficulty
                &&& final(self).mining_reward == old(self).mining_reward
                &&& final(self).node_url == old(self).node_url
                &&& final(self).peers == old(self).peers
            },
    {
        if self.pending_transactions.len() == 0 {
            return Err(LedgerError::NoPendingTransactions);
        }
        proof {
            reveal_strlit("0");
            reveal_strlit("SYSTEM");
        }
        let mut id = String::from_str("reward-");
        id.append(decimal_string(current_timestamp()).as_str());
        let reward_tx = Transaction {
            id,
            from: String::from_str("0"),
            to: mining_reward_address.to_owned(),
            amount: self.mining_reward,
            fee: 0,
            timestamp: current_timestamp(),
            signature: String::from_str("SYSTEM"),
        };
        assert(reward_tx.from@ =~= mint_address());
        assert(reward_tx.signature@ =~= seq!['S', 'Y', 'S', 'T', 'E', 'M']);
        let mut transactions_to_mine = copy_transactions(&self.pending_transactions);
        transactions_to_mine.push(reward_tx);
        let chain_len = self.chain.len();
        let previous_block = self.get_latest_block();
        assert(previous_block.index == chain_len - 1);
        assert(chain_len <= u64::MAX);
        let new_block = Block {
            index: previous_block.index + 1,
            timestamp: current_timestamp(),
            transactions: transactions_to_mine,
            previous_hash: previous_block.hash.clone(),
            hash: String::new(),
            nonce: 0,
            difficulty: self.difficulty,
        };
        let ghost candidate = new_block;
        assert(candidate.transactions@.drop_last() =~= self.pending_transactions@);
        assert(is_candidate(candidate, *self, mining_reward_address@));
        let mined_block = match self.proof_of_work(new_block) {
            Ok(b) => b,
            Err(e) => {
                assert(no_nonce_meets(candidate));
                return Err(e);
            },
        };
        proof {
            assert forall|n: u64| n < mined_block.nonce implies !has_zero_prefix(
                #[trigger] digest_with_nonce(mined_block, n),
                mined_block.difficulty as nat,
            ) by {
                assert(digest_with_nonce(mined_block, n) == digest_with_nonce(new_block, n));
            }
        }
        self.chain.push(mined_block.copy());
        self.pending_transactions = Vec::new();
        proof {
            let old_chain = old(self).chain@;
            let new_chain = self.chain@;
            assert(new_chain.drop_last() =~= old_chain);
            assert(mined_block.transactions@.drop_last() =~= old(self).pending_transactions@);
            assert(flatten(new_chain) == flatten(old_chain) + new_chain.last().transactions@);
            assert(self.history() =~= old(self).history().push(reward_tx));
            assert forall|i: int| 0 <= i < new_chain.len() implies (
            #[trigger] new_chain[i]).index == i by {
                if i < old_chain.len() {
                    assert(new_chain[i] == old_chain[i]);
                }
            }
            if chain_valid(old_chain) {
                assert forall|i: int| 1 <= i < new_chain.len() implies {
                    &&& (#[trigger] new_chain[i]).hash@ == digest_with_nonce(
                        new_chain[i],
                        new_chain[i].nonce,
                    )
                    &&& new_chain[i].previous_hash@ == new_chain[i - 1].hash@
                } by {
                    if i < old_chain.len() {
                        assert(new_chain[i] == old_chain[i]);
                        assert(new_chain[i - 1] == old_chain[i - 1]);
                    } else {
                        assert(new_chain[i - 1] == old_chain[i - 1]);
                        assert(digest_with_nonce(new_chain[i], new_chain[i].nonce)
                            == digest_with_nonce(mined_block, mined_block.nonce));
                    }
                }
            }
        }
        Ok(mined_block)
    }

    /// Whether every block after the first carries the digest of its own
    /// content and nonce, and the hash of the block before it.
    pub fn is_chain_valid(&self) -> (r: bool)
        ensures
            r == chain_valid(self.chain@),
    {
        let mut i: usize = 1;
        while i < self.chain.len()
            invariant
                1 <= i,
                forall|j: int|
                    1 <= j < i && j < self.chain@.len() ==> {
                        &&& (#[trigger] self.chain@[j]).hash@ == digest_with_nonce(
                            self.chain@[j],
                            self.chain@[j].nonce,
                        )
                        &&& self.chain@[j].previous_hash@ == self.chain@[j - 1].hash@
                    },
            decreases self.chain@.len() - i,
        {
            let current_block = &self.chain[i];
            let previous_block = &self.chain[i - 1];
            let mut block_content = current_block.content();
            block_content.append(decimal_string(current_block.nonce).as_str());
            if !(sha256_hex(&block_content) == current_block.hash) {
                return false;
            }
            if !(current_block.previous_hash == previous_block.hash) {
                return false;
            }
            i = i + 1;
        }
        true
    }

    /// Adds `peer_url` to the peers unless it is there already.
    pub fn add_peer(&mut self, peer_url: &str)
        ensures
            final(self).peer_views() == if old(self).peer_views().contains(peer_url@) {
                old(self).peer_views()
            } else {
                old(self).peer_views().push(peer_url@)
            },
            final(self).chain == old(self).chain,
            final(self).pending_transactions == old(self).pending_transactions,
            final(self).difficulty == old(self).difficulty,
            final(self).mining_reward == old(self).mining_reward,
            final(self).node_url == old(self).node_url,
            final(self).wf() == old(self).wf(),
    {
        let url = peer_url.to_owned();
        let mut i: usize = 0;
        while i < self.peers.len()
            invariant
                url@ == peer_url@,
                i <= self.peers@.len(),
                forall|j: int| 0 <= j < i ==> (#[trigger] self.peers@[j])@ != url@,
            decreases self.peers@.len() - i,
        {
            if self.peers[i] == url {
                assert(self.peer_views()[i as int] == peer_url@);
                return;
            }
            i = i + 1;
        }
        assert(!self.peer_views().contains(peer_url@));
        self.peers.push(url);
        assert(self.peer_views() =~= old(self).peer_views().push(peer_url@));
    }
}

/// A mint transaction of fee zero to `x` raises the balance of `x` by exactly
/// its amount, whatever came before it.
pub proof fn lemma_mint_credits_recipient(history: Seq<Transaction>, t: Transaction, x: Seq<char>)
    requires
        t.from@ == mint_address(),
        t.to@ == x,
        t.fee == 0,
        x != mint_address(),
    ensures
        replay(history.push(t), x) == replay(history, x) + t.amount,
{
    assert(history.push(t).drop_last() =~= history);
}

/// Once a mint transaction of fee zero to `x` has entered a ledger, the
/// balance of `x` is what it was plus exactly the amount.
pub proof fn lemma_mint_submission_credits(
    before: Blockchain,
    after: Blockchain,
    t: Transaction,
    x: Seq<char>,
)
    requires
        after.history() == before.history().push(t),
        t.from@ == mint_address(),
        t.to@ == x,
        t.fee == 0,
        x != mint_address(),
    ensures
        after.balance_of(x) == before.balance_of(x) + t.amount,
{
    lemma_mint_credits_recipient(before.history(), t, x);
}

/// A chain in which some block after the first no longer carries the hash of
/// the block before it is not valid: replacing a sealed block's previous hash
/// by another text is detected.
pub proof fn lemma_relinked_block_detected(chain: Seq<Block>, i: int, b: Block)
    requires
        1 <= i < chain.len(),
        chain_valid(chain),
        b.previous_hash@ != chain[i].previous_hash@,
    ensures
        !chain_valid(chain.update(i, b)),
{
    assert(chain.update(i, b)[i] == b);
    assert(chain.update(i, b)[i - 1] == chain[i - 1]);
}

} // verus!

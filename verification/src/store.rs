//! The persistent store's semantics: a dimension table of coins and a fact
//! table of observations.
//!
//! One persistence step per cycle, in two sub-operations. First the cycle's
//! records are bulk-upserted into the dimension table: a record whose `uuid`
//! is already present updates that row's `symbol` and `name` in place, any
//! other record appends a fresh row; at most one row per `uuid` ever exists.
//! Then one observation row is appended per record whose `uuid` resolves in
//! the dimension table; a record that does not resolve is skipped rather than
//! allowed to produce an orphaned observation.
//!
//! Rows carry their table's primary key explicitly: the row at position `i`
//! has id `i + 1`, as a store that assigns keys in insertion order and never
//! deletes would.

use vstd::prelude::*;

use crate::numeric::coerce_numeric;
use crate::numeric::coerced;
use crate::record::FetchedRecord;

verus! {

/// The greatest row count either table may reach: every row id must fit the
/// store's signed 32-bit key column.
pub const MAX_ROWS: usize = 0x7fff_ffff;

/// One dimension row: a known coin.
pub struct Coin {
    /// Primary key, assigned by the store in insertion order.
    pub id: i32,
    /// The external stable identifier; unique across the table.
    pub uuid: String,
    /// The most recently observed ticker symbol.
    pub symbol: String,
    /// The most recently observed display name.
    pub name: String,
}

/// The dimension attributes of a record, as they are written on upsert.
pub struct NewCoin {
    /// The external stable identifier.
    pub uuid: String,
    /// The ticker symbol to store.
    pub symbol: String,
    /// The display name to store.
    pub name: String,
}

/// One fact row: a timestamped observation of a coin's market data.
pub struct CoinData {
    /// Primary key, assigned by the store in insertion order.
    pub id: i32,
    /// The id of the owning dimension row.
    pub coin_id: i32,
    /// The observed price, as coerced text denoting the stored number.
    pub price: String,
    /// The observed market capitalization, as coerced text.
    pub market_cap: String,
    /// When the observation was appended, in seconds since the Unix epoch.
    pub ts: u64,
}

/// The fact attributes of a record, as they are written on append: the
/// resolved owner and the numeric fields after coercion.
pub struct NewCoinData {
    /// The id of the owning dimension row.
    pub coin_id: i32,
    /// The price text after coercion.
    pub price: String,
    /// The market-cap text after coercion.
    pub market_cap: String,
}

impl NewCoin {
    /// The dimension attributes a record contributes.
    pub fn of_record(r: &FetchedRecord) -> (n: NewCoin)
        ensures
            n.uuid == r.uuid,
            n.symbol == r.symbol,
            n.name == r.name,
    {
        NewCoin { uuid: r.uuid.clone(), symbol: r.symbol.clone(), name: r.name.clone() }
    }
}

impl NewCoinData {
    /// The fact attributes a record contributes, once its coin resolved to
    /// `coin_id`: the numeric fields are coerced here, so a malformed price
    /// or market cap degrades to the default rather than failing the cycle.
    pub fn of_record(r: &FetchedRecord, coin_id: i32) -> (n: NewCoinData)
        ensures
            n.coin_id == coin_id,
            n.price@ == coerced(r.price@),
            n.market_cap@ == coerced(r.market_cap@),
    {
        NewCoinData {
            coin_id,
            price: coerce_numeric(r.price.as_str()),
            market_cap: coerce_numeric(r.market_cap.as_str()),
        }
    }
}

/// The position of the first dimension row with the given uuid, if any.
pub open spec fn find_uuid(coins: Seq<Coin>, uuid: Seq<char>) -> Option<int>
    decreases coins.len(),
{
    if coins.len() == 0 {
        None
    } else if coins[0].uuid@ == uuid {
        Some(0int)
    } else {
        match find_uuid(coins.skip(1), uuid) {
            None => None,
            Some(i) => Some(i + 1),
        }
    }
}

/// Whether some dimension row has the given uuid.
pub open spec fn has_uuid(coins: Seq<Coin>, uuid: Seq<char>) -> bool {
    find_uuid(coins, uuid) is Some
}

/// The id of the dimension row with the given uuid, if any.
pub open spec fn spec_find_id(coins: Seq<Coin>, uuid: Seq<char>) -> Option<i32> {
    match find_uuid(coins, uuid) {
        Some(i) => Some(coins[i].id),
        None => None,
    }
}

/// Whether some record in the batch carries the given uuid.
pub open spec fn rec_has_uuid(recs: Seq<FetchedRecord>, u: Seq<char>) -> bool {
    exists|j: int| 0 <= j < recs.len() && recs[j].uuid@ == u
}

/// What `find_uuid` finds: the first row with the uuid, or a guarantee that
/// none has it.
pub proof fn lemma_find_uuid_props(coins: Seq<Coin>, uuid: Seq<char>)
    ensures
        match find_uuid(coins, uuid) {
            Some(i) => 0 <= i < coins.len() && coins[i].uuid@ == uuid && (forall|j: int|
                0 <= j < i ==> #[trigger] coins[j].uuid@ != uuid),
            None => forall|j: int| 0 <= j < coins.len() ==> #[trigger] coins[j].uuid@ != uuid,
        },
    decreases coins.len(),
{
    if coins.len() == 0 {
    } else if coins[0].uuid@ == uuid {
    } else {
        lemma_find_uuid_props(coins.skip(1), uuid);
        assert(forall|j: int| 1 <= j < coins.len() ==> #[trigger] coins[j] == coins.skip(1)[j - 1]);
    }
}

/// A uuid is present exactly when some row carries it.
pub proof fn lemma_has_uuid_iff(coins: Seq<Coin>, uuid: Seq<char>)
    ensures
        has_uuid(coins, uuid) <==> (exists|j: int|
            0 <= j < coins.len() && #[trigger] coins[j].uuid@ == uuid),
{
    lemma_find_uuid_props(coins, uuid);
    if has_uuid(coins, uuid) {
        let i = find_uuid(coins, uuid)->Some_0;
        assert(0 <= i < coins.len() && coins[i].uuid@ == uuid);
    }
}

/// The dimension table's invariant: row ids are the insertion order, every
/// id fits the key column, and no two rows share a uuid.
pub open spec fn coins_wf(coins: Seq<Coin>) -> bool {
    &&& coins.len() <= MAX_ROWS
    &&& (forall|i: int| 0 <= i < coins.len() ==> #[trigger] coins[i].id == i + 1)
    &&& (forall|i: int, j: int|
        #![trigger coins[i].uuid@, coins[j].uuid@]
        0 <= i < j < coins.len() ==> coins[i].uuid@ != coins[j].uuid@)
}

/// One record's effect on the dimension table: update the row that already
/// carries its uuid, else append a fresh row keyed by the next id.
pub open spec fn upsert_one(coins: Seq<Coin>, r: FetchedRecord) -> Seq<Coin> {
    match find_uuid(coins, r.uuid@) {
        Some(i) => coins.update(
            i,
            Coin { id: coins[i].id, uuid: coins[i].uuid, symbol: r.symbol, name: r.name },
        ),
        None => coins.push(
            Coin { id: (coins.len() + 1) as i32, uuid: r.uuid, symbol: r.symbol, name: r.name },
        ),
    }
}

/// A batch's effect on the dimension table: the records applied in order, so
/// the latest occurrence of a uuid wins.
pub open spec fn upsert_seq(coins: Seq<Coin>, recs: Seq<FetchedRecord>) -> Seq<Coin>
    decreases recs.len(),
{
    if recs.len() == 0 {
        coins
    } else {
        upsert_seq(upsert_one(coins, recs[0]), recs.skip(1))
    }
}

/// Applying one more record comes last.
proof fn lemma_upsert_seq_push(coins: Seq<Coin>, recs: Seq<FetchedRecord>, x: FetchedRecord)
    ensures
        upsert_seq(coins, recs.push(x)) == upsert_one(upsert_seq(coins, recs), x),
    decreases recs.len(),
{
    if recs.len() == 0 {
        assert(recs.push(x)[0] == x);
        assert(recs.push(x).skip(1) =~= Seq::<FetchedRecord>::empty());
        assert(upsert_seq(coins, recs) == coins);
        assert(upsert_seq(coins, recs.push(x)) == upsert_seq(
            upsert_one(coins, x),
            Seq::<FetchedRecord>::empty(),
        ));
        assert(upsert_seq(upsert_one(coins, x), Seq::<FetchedRecord>::empty()) == upsert_one(
            coins,
            x,
        ));
    } else {
        assert(recs.push(x)[0] == recs[0]);
        assert(recs.push(x).skip(1) =~= recs.skip(1).push(x));
        lemma_upsert_seq_push(upsert_one(coins, recs[0]), recs.skip(1), x);
        assert(upsert_seq(coins, recs.push(x)) == upsert_seq(
            upsert_one(coins, recs[0]),
            recs.skip(1).push(x),
        ));
        assert(upsert_seq(coins, recs) == upsert_seq(upsert_one(coins, recs[0]), recs.skip(1)));
    }
}

/// One upsert keeps the table well formed, grows it by at most one row, and
/// makes exactly the record's uuid newly present.
pub proof fn lemma_upsert_one_props(coins: Seq<Coin>, r: FetchedRecord)
    requires
        coins_wf(coins),
        coins.len() < MAX_ROWS,
    ensures
        coins_wf(upsert_one(coins, r)),
        coins.len() <= upsert_one(coins, r).len() <= coins.len() + 1,
        forall|u: Seq<char>| #[trigger]
            has_uuid(upsert_one(coins, r), u) <==> (has_uuid(coins, u) || u == r.uuid@),
{
    let c1 = upsert_one(coins, r);
    lemma_find_uuid_props(coins, r.uuid@);
    assert forall|u: Seq<char>| #[trigger]
        has_uuid(c1, u) <==> (has_uuid(coins, u) || u == r.uuid@) by {
        lemma_has_uuid_iff(c1, u);
        lemma_has_uuid_iff(coins, u);
        match find_uuid(coins, r.uuid@) {
            Some(i) => {
                assert(forall|j: int| 0 <= j < coins.len() ==> #[trigger] c1[j].uuid@
                    == coins[j].uuid@);
                assert(forall|j: int| 0 <= j < coins.len() ==> c1[j].uuid@
                    == #[trigger] coins[j].uuid@);
                if u == r.uuid@ {
                    assert(coins[i].uuid@ == u);
                }
            },
            None => {
                assert(c1[coins.len() as int].uuid@ == r.uuid@);
                assert(forall|j: int| 0 <= j < coins.len() ==> #[trigger] c1[j].uuid@
                    == coins[j].uuid@);
                assert(forall|j: int| 0 <= j < coins.len() ==> c1[j].uuid@
                    == #[trigger] coins[j].uuid@);
            },
        }
    }
    match find_uuid(coins, r.uuid@) {
        Some(i) => {
            assert(coins_wf(c1));
        },
        None => {
            assert(forall|j: int| 0 <= j < coins.len() ==> #[trigger] coins[j].uuid@ != r.uuid@);
            assert(coins_wf(c1));
        },
    }
}

/// A batch upsert keeps the table well formed, adds at most one row per
/// record, and makes present exactly the uuids that were present before or
/// occur in the batch.
pub proof fn lemma_upsert_seq_props(coins: Seq<Coin>, recs: Seq<FetchedRecord>)
    requires
        coins_wf(coins),
        coins.len() + recs.len() <= MAX_ROWS,
    ensures
        coins_wf(upsert_seq(coins, recs)),
        coins.len() <= upsert_seq(coins, recs).len() <= coins.len() + recs.len(),
        forall|u: Seq<char>| #[trigger]
            has_uuid(upsert_seq(coins, recs), u) <==> (has_uuid(coins, u) || rec_has_uuid(
                recs,
                u,
            )),
    decreases recs.len(),
{
    if recs.len() == 0 {
        assert(forall|u: Seq<char>| !rec_has_uuid(recs, u));
    } else {
        lemma_upsert_one_props(coins, recs[0]);
        let c1 = upsert_one(coins, recs[0]);
        lemma_upsert_seq_props(c1, recs.skip(1));
        assert(upsert_seq(coins, recs) == upsert_seq(c1, recs.skip(1)));
        assert forall|u: Seq<char>| #[trigger]
            has_uuid(upsert_seq(coins, recs), u) <==> (has_uuid(coins, u) || rec_has_uuid(
                recs,
                u,
            )) by {
            if rec_has_uuid(recs.skip(1), u) {
                let j = choose|j: int| 0 <= j < recs.skip(1).len() && recs.skip(1)[j].uuid@ == u;
                assert(recs[j + 1].uuid@ == u);
            }
            if rec_has_uuid(recs, u) && u != recs[0].uuid@ {
                let j = choose|j: int| 0 <= j < recs.len() && recs[j].uuid@ == u;
                assert(recs.skip(1)[j - 1].uuid@ == u);
            }
        }
    }
}

/// Law: a batch upsert never creates a second dimension row for one uuid —
/// in particular, a batch that carries the same uuid twice still yields at
/// most one row for it.
pub proof fn lemma_upsert_keeps_uuids_unique(coins: Seq<Coin>, recs: Seq<FetchedRecord>)
    requires
        coins_wf(coins),
        coins.len() + recs.len() <= MAX_ROWS,
    ensures
        forall|i: int, j: int|
            #![trigger upsert_seq(coins, recs)[i].uuid@, upsert_seq(coins, recs)[j].uuid@]
            0 <= i < j < upsert_seq(coins, recs).len() ==> upsert_seq(coins, recs)[i].uuid@
                != upsert_seq(coins, recs)[j].uuid@,
{
    lemma_upsert_seq_props(coins, recs);
}

/// Law: upserting a record whose uuid is already present rewrites that row's
/// symbol and name in place — same id, same uuid, no row added or moved.
pub proof fn lemma_upsert_updates_existing(coins: Seq<Coin>, r: FetchedRecord)
    requires
        coins_wf(coins),
        has_uuid(coins, r.uuid@),
    ensures
        upsert_one(coins, r).len() == coins.len(),
        ({
            let i = find_uuid(coins, r.uuid@)->Some_0;
            &&& upsert_one(coins, r)[i].id == coins[i].id
            &&& upsert_one(coins, r)[i].uuid@ == r.uuid@
            &&& upsert_one(coins, r)[i].symbol == r.symbol
            &&& upsert_one(coins, r)[i].name == r.name
            &&& forall|j: int|
                0 <= j < coins.len() && j != i ==> #[trigger] upsert_one(coins, r)[j] == coins[j]
        }),
{
    lemma_find_uuid_props(coins, r.uuid@);
}

/// The records of a batch whose uuid resolves in the dimension table, in
/// order: exactly those that contribute an observation row.
pub open spec fn resolved_recs(coins: Seq<Coin>, recs: Seq<FetchedRecord>) -> Seq<FetchedRecord>
    decreases recs.len(),
{
    if recs.len() == 0 {
        Seq::empty()
    } else if has_uuid(coins, recs[0].uuid@) {
        seq![recs[0]] + resolved_recs(coins, recs.skip(1))
    } else {
        resolved_recs(coins, recs.skip(1))
    }
}

/// Resolving one more record comes last.
proof fn lemma_resolved_push(coins: Seq<Coin>, recs: Seq<FetchedRecord>, x: FetchedRecord)
    ensures
        resolved_recs(coins, recs.push(x)) == if has_uuid(coins, x.uuid@) {
            resolved_recs(coins, recs).push(x)
        } else {
            resolved_recs(coins, recs)
        },
    decreases recs.len(),
{
    if recs.len() == 0 {
        assert(recs.push(x)[0] == x);
        assert(recs.push(x).skip(1) =~= Seq::<FetchedRecord>::empty());
        assert(resolved_recs(coins, recs) == Seq::<FetchedRecord>::empty());
        assert(resolved_recs(coins, Seq::<FetchedRecord>::empty()) == Seq::<
            FetchedRecord,
        >::empty());
        if has_uuid(coins, x.uuid@) {
            assert(resolved_recs(coins, recs.push(x)) == seq![x] + Seq::<FetchedRecord>::empty());
            assert(seq![x] + Seq::<FetchedRecord>::empty() =~= Seq::<
                FetchedRecord,
            >::empty().push(x));
        } else {
            assert(resolved_recs(coins, recs.push(x)) == Seq::<FetchedRecord>::empty());
        }
    } else {
        assert(recs.push(x)[0] == recs[0]);
        assert(recs.push(x).skip(1) =~= recs.skip(1).push(x));
        lemma_resolved_push(coins, recs.skip(1), x);
        if has_uuid(coins, recs[0].uuid@) {
            assert(resolved_recs(coins, recs.push(x)) == seq![recs[0]] + resolved_recs(
                coins,
                recs.skip(1).push(x),
            ));
            assert(resolved_recs(coins, recs) == seq![recs[0]] + resolved_recs(
                coins,
                recs.skip(1),
            ));
            if has_uuid(coins, x.uuid@) {
                assert(seq![recs[0]] + resolved_recs(coins, recs.skip(1)).push(x)
                    =~= (seq![recs[0]] + resolved_recs(coins, recs.skip(1))).push(x));
            }
        } else {
            assert(resolved_recs(coins, recs.push(x)) == resolved_recs(
                coins,
                recs.skip(1).push(x),
            ));
            assert(resolved_recs(coins, recs) == resolved_recs(coins, recs.skip(1)));
        }
    }
}

/// Law: an observation is only ever appended for a record whose uuid
/// resolves in the dimension table — a record whose uuid is absent
/// contributes no row, so no observation is orphaned.
pub proof fn lemma_no_orphan_observations(coins: Seq<Coin>, recs: Seq<FetchedRecord>)
    ensures
        forall|k: int|
            0 <= k < resolved_recs(coins, recs).len() ==> has_uuid(
                coins,
                #[trigger] resolved_recs(coins, recs)[k].uuid@,
            ),
    decreases recs.len(),
{
    if recs.len() > 0 {
        lemma_no_orphan_observations(coins, recs.skip(1));
        if has_uuid(coins, recs[0].uuid@) {
            assert(resolved_recs(coins, recs) == seq![recs[0]] + resolved_recs(
                coins,
                recs.skip(1),
            ));
            assert(resolved_recs(coins, recs)[0] == recs[0]);
            assert(forall|k: int|
                1 <= k < resolved_recs(coins, recs).len() ==> #[trigger] resolved_recs(
                    coins,
                    recs,
                )[k] == resolved_recs(coins, recs.skip(1))[k - 1]);
        } else {
            assert(resolved_recs(coins, recs) == resolved_recs(coins, recs.skip(1)));
        }
    }
}

/// When every record of the batch resolves, every record contributes: the
/// resolved batch is the batch itself.
pub proof fn lemma_resolved_all(coins: Seq<Coin>, recs: Seq<FetchedRecord>)
    requires
        forall|j: int| 0 <= j < recs.len() ==> has_uuid(coins, #[trigger] recs[j].uuid@),
    ensures
        resolved_recs(coins, recs) == recs,
    decreases recs.len(),
{
    if recs.len() > 0 {
        assert(forall|j: int|
            0 <= j < recs.skip(1).len() ==> has_uuid(coins, #[trigger] recs.skip(1)[j].uuid@));
        lemma_resolved_all(coins, recs.skip(1));
        assert(has_uuid(coins, recs[0].uuid@));
        assert(resolved_recs(coins, recs) == seq![recs[0]] + resolved_recs(coins, recs.skip(1)));
        assert(seq![recs[0]] + recs.skip(1) =~= recs);
    }
}

/// The fact table's invariant, relative to the dimension table it references:
/// row ids are the insertion order and every row's `coin_id` is the id of an
/// existing dimension row.
pub open spec fn data_wf(coins: Seq<Coin>, rows: Seq<CoinData>) -> bool {
    &&& rows.len() <= MAX_ROWS
    &&& (forall|i: int| 0 <= i < rows.len() ==> #[trigger] rows[i].id == i + 1)
    &&& (forall|i: int|
        0 <= i < rows.len() ==> 1 <= #[trigger] rows[i].coin_id <= coins.len())
}

/// One appended observation row carries exactly what its record contributes:
/// the resolved coin's id, the coerced numeric texts, and the cycle's
/// timestamp.
pub open spec fn row_matches(row: CoinData, r: FetchedRecord, coins: Seq<Coin>, ts: u64) -> bool {
    &&& spec_find_id(coins, r.uuid@) == Some(row.coin_id)
    &&& row.price@ == coerced(r.price@)
    &&& row.market_cap@ == coerced(r.market_cap@)
    &&& row.ts == ts
}

/// The store: the dimension table and the fact table of one database.
pub struct Store {
    /// The coins dimension table, in insertion order.
    pub coins: Vec<Coin>,
    /// The observations fact table, in insertion order.
    pub coin_data: Vec<CoinData>,
}

/// The position of the first row of `coins` carrying `uuid`, by linear scan.
fn find_index(coins: &Vec<Coin>, uuid: &String) -> (r: Option<usize>)
    ensures
        match r {
            Some(i) => i < coins@.len() && find_uuid(coins@, uuid@) == Some(i as int),
            None => find_uuid(coins@, uuid@) is None,
        },
{
    let n = coins.len();
    let mut i: usize = 0;
    while i < n
        invariant
            0 <= i <= n,
            n == coins@.len(),
            forall|j: int| 0 <= j < i ==> #[trigger] coins@[j].uuid@ != uuid@,
        decreases n - i,
    {
        if coins[i].uuid.eq(uuid) {
            proof {
                lemma_find_uuid_props(coins@, uuid@);
            }
            return Some(i);
        }
        i = i + 1;
    }
    proof {
        lemma_find_uuid_props(coins@, uuid@);
    }
    None
}

impl Store {
    /// Both tables are well formed and consistent with each other.
    pub open spec fn wf(&self) -> bool {
        coins_wf(self.coins@) && data_wf(self.coins@, self.coin_data@)
    }

    /// An empty store.
    pub fn new() -> (s: Store)
        ensures
            s.wf(),
            s.coins@.len() == 0,
            s.coin_data@.len() == 0,
    {
        Store { coins: Vec::new(), coin_data: Vec::new() }
    }

    /// The id of the coin with the given uuid, if the dimension table holds
    /// one.
    pub fn find_coin_id(&self, uuid: &String) -> (r: Option<i32>)
        ensures
            r == spec_find_id(self.coins@, uuid@),
    {
        match find_index(&self.coins, uuid) {
            Some(i) => Some(self.coins[i].id),
            None => None,
        }
    }

    /// Bulk upsert of the cycle's records into the dimension table, in
    /// order: a record whose uuid is present updates that row's symbol and
    /// name, any other appends a fresh row. An empty batch changes nothing.
    pub fn insert_or_update_coins(&mut self, records: &Vec<FetchedRecord>)
        requires
            old(self).wf(),
            old(self).coins@.len() + records@.len() <= MAX_ROWS,
        ensures
            final(self).wf(),
            final(self).coins@ == upsert_seq(old(self).coins@, records@),
            final(self).coin_data@ == old(self).coin_data@,
            old(self).coins@.len() <= final(self).coins@.len() <= old(self).coins@.len()
                + records@.len(),
            forall|u: Seq<char>| #[trigger]
                has_uuid(final(self).coins@, u) <==> (has_uuid(old(self).coins@, u)
                    || rec_has_uuid(records@, u)),
    {
        let ghost c0 = self.coins@;
        let ghost d0 = self.coin_data@;
        let ghost rs = records@;
        let n = records.len();
        let mut k: usize = 0;
        while k < n
            invariant
                0 <= k <= n,
                n == rs.len(),
                records@ == rs,
                coins_wf(c0),
                c0.len() + n <= MAX_ROWS,
                self.coins@ == upsert_seq(c0, rs.take(k as int)),
                coins_wf(self.coins@),
                c0.len() <= self.coins@.len() <= c0.len() + k,
                self.coin_data@ == d0,
                data_wf(c0, d0),
            decreases n - k,
        {
            let ghost pre = self.coins@;
            let r = &records[k];
            let idx = find_index(&self.coins, &r.uuid);
            let n = NewCoin::of_record(r);
            match idx {
                Some(i) => {
                    let id = self.coins[i].id;
                    let uu = self.coins[i].uuid.clone();
                    self.coins[i] = Coin { id, uuid: uu, symbol: n.symbol, name: n.name };
                },
                None => {
                    let id = (self.coins.len() + 1) as i32;
                    self.coins.push(Coin { id, uuid: n.uuid, symbol: n.symbol, name: n.name });
                },
            }
            proof {
                assert(self.coins@ == upsert_one(pre, rs[k as int]));
                lemma_upsert_one_props(pre, rs[k as int]);
                assert(rs.take(k + 1) =~= rs.take(k as int).push(rs[k as int]));
                lemma_upsert_seq_push(c0, rs.take(k as int), rs[k as int]);
            }
            k = k + 1;
        }
        proof {
            assert(rs.take(n as int) =~= rs);
            lemma_upsert_seq_props(c0, rs);
            assert(data_wf(self.coins@, self.coin_data@));
        }
    }

    /// Append one observation row per record whose uuid resolves in the
    /// dimension table, in order, stamped `ts`. A record that does not
    /// resolve is skipped; nothing else changes.
    pub fn insert_coin_data(&mut self, records: &Vec<FetchedRecord>, ts: u64)
        requires
            old(self).wf(),
            old(self).coin_data@.len() + records@.len() <= MAX_ROWS,
        ensures
            final(self).wf(),
            final(self).coins@ == old(self).coins@,
            final(self).coin_data@.len() == old(self).coin_data@.len() + resolved_recs(
                old(self).coins@,
                records@,
            ).len(),
            forall|i: int|
                0 <= i < old(self).coin_data@.len() ==> #[trigger] final(self).coin_data@[i]
                    == old(self).coin_data@[i],
            forall|i: int|
                old(self).coin_data@.len() <= i < final(self).coin_data@.len() ==> row_matches(
                    #[trigger] final(self).coin_data@[i],
                    resolved_recs(old(self).coins@, records@)[i - old(self).coin_data@.len()],
                    old(self).coins@,
                    ts,
                ),
    {
        let ghost c = self.coins@;
        let ghost d0 = self.coin_data@;
        let ghost rs = records@;
        let n = records.len();
        let mut k: usize = 0;
        while k < n
            invariant
                0 <= k <= n,
                n == rs.len(),
                records@ == rs,
                self.coins@ == c,
                coins_wf(c),
                data_wf(c, self.coin_data@),
                d0.len() + n <= MAX_ROWS,
                self.coin_data@.len() == d0.len() + resolved_recs(c, rs.take(k as int)).len(),
                resolved_recs(c, rs.take(k as int)).len() <= k,
                forall|i: int| 0 <= i < d0.len() ==> #[trigger] self.coin_data@[i] == d0[i],
                forall|i: int|
                    d0.len() <= i < self.coin_data@.len() ==> row_matches(
                        #[trigger] self.coin_data@[i],
                        resolved_recs(c, rs.take(k as int))[i - d0.len()],
                        c,
                        ts,
                    ),
            decreases n - k,
        {
            let r = &records[k];
            let found = self.find_coin_id(&r.uuid);
            proof {
                assert(rs.take(k + 1) =~= rs.take(k as int).push(rs[k as int]));
                lemma_resolved_push(c, rs.take(k as int), rs[k as int]);
            }
            match found {
                Some(cid) => {
                    let nd = NewCoinData::of_record(r, cid);
                    let id = (self.coin_data.len() + 1) as i32;
                    proof {
                        lemma_find_uuid_props(c, rs[k as int].uuid@);
                    }
                    self.coin_data.push(
                        CoinData {
                            id,
                            coin_id: nd.coin_id,
                            price: nd.price,
                            market_cap: nd.market_cap,
                            ts,
                        },
                    );
                },
                None => {},
            }
            k = k + 1;
        }
        proof {
            assert(rs.take(n as int) =~= rs);
        }
    }

    /// One cycle's persistence step: upsert the dimension rows, then append
    /// the observations. Because the upsert runs first, every record
    /// resolves, so exactly one observation row is appended per record of
    /// the batch, each linked to the dimension row carrying its uuid.
    pub fn persist_cycle(&mut self, records: &Vec<FetchedRecord>, ts: u64)
        requires
            old(self).wf(),
            old(self).coins@.len() + records@.len() <= MAX_ROWS,
            old(self).coin_data@.len() + records@.len() <= MAX_ROWS,
        ensures
            final(self).wf(),
            final(self).coins@ == upsert_seq(old(self).coins@, records@),
            forall|u: Seq<char>| #[trigger]
                has_uuid(final(self).coins@, u) <==> (has_uuid(old(self).coins@, u)
                    || rec_has_uuid(records@, u)),
            final(self).coin_data@.len() == old(self).coin_data@.len() + records@.len(),
            forall|i: int|
                0 <= i < old(self).coin_data@.len() ==> #[trigger] final(self).coin_data@[i]
                    == old(self).coin_data@[i],
            forall|i: int|
                old(self).coin_data@.len() <= i < final(self).coin_data@.len() ==> row_matches(
                    #[trigger] final(self).coin_data@[i],
                    records@[i - old(self).coin_data@.len()],
                    final(self).coins@,
                    ts,
                ),
    {
        self.insert_or_update_coins(records);
        proof {
            assert forall|j: int|
                0 <= j < records@.len() implies has_uuid(
                self.coins@,
                #[trigger] records@[j].uuid@,
            ) by {
                assert(rec_has_uuid(records@, records@[j].uuid@));
            }
            lemma_resolved_all(self.coins@, records@);
        }
        self.insert_coin_data(records, ts);
    }
}

} // verus!

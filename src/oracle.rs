//! The aggregation engine: one price window per asset, the checks a
//! submission must pass, staleness-gated reads, feeder removal and the
//! constant or correlated price overlay.
use crate::asset::Asset;
use crate::fixed::{fixed_mul, fixed_mul_spec};
use crate::median::{
    calc_median_price, insert_by_price, insert_point, is_kept, kept_points, lemma_insert_elements,
    lemma_insert_len, lemma_insert_prices, lemma_insert_sorted, lemma_kept_all_live,
    lemma_kept_elements, lemma_median_in_range, lemma_without_feeder_elements, median_of,
    prices_of, retain_live_points, retain_other_feeders, sorted_by_price, without_feeder,
    lemma_insert_wf, lemma_kept_wf, lemma_without_feeder_same_len, lemma_without_feeder_wf,
    window_wf, lemma_kept_none, half_toward_zero, PricePoint,
};
use crate::policy::{DirectPriceCorrelation, SpecialPrices, Whitelist};
use std::collections::BTreeMap;
use vstd::prelude::*;
use vstd::relations::{sorted_by, total_ordering};
use vstd::seq_lib::lemma_sorted_unique;

verus! {

broadcast use vstd::std_specs::btree::group_btree_axioms, vstd::laws_cmp::group_laws_cmp;

/// Why a submission or a read was refused.
#[derive(Debug, Clone, Copy, PartialEq, Eq, Structural)]
pub enum Error {
    /// The additional validation hook refused the parameters.
    AdditionalValidatorFailed,
    /// The account is not an eligible feeder.
    NotAllowedToSubmitPrice,
    /// The feeder already submitted for this asset in this block.
    PriceAlreadyAdded,
    /// No aggregate is stored for the asset.
    CurrencyNotFound,
    /// The asset's price is constant or follows another asset.
    WrongCurrency,
    /// The price is zero.
    PriceIsZero,
    /// The price is negative.
    PriceIsNegative,
    /// The aggregate is older than the median timeout.
    PriceTimeout,
    /// The asset is not known.
    AssetNotFound,
}

/// The aggregate of one asset: the block and time of its last change, the
/// aggregated price and the window of points, ascending by price.
pub struct PriceData {
    pub block_number: u64,
    pub timestamp: u64,
    pub price: i64,
    pub price_points: Vec<PricePoint>,
}

/// The model of a `PriceData`.
pub struct PriceDataView {
    pub block_number: u64,
    pub timestamp: u64,
    pub price: i64,
    pub points: Seq<PricePoint>,
}

impl View for PriceData {
    type V = PriceDataView;

    open spec fn view(&self) -> PriceDataView {
        PriceDataView {
            block_number: self.block_number,
            timestamp: self.timestamp,
            price: self.price,
            points: self.price_points@,
        }
    }
}

impl PriceData {
    /// An empty aggregate, as created for every known asset at genesis.
    pub fn empty() -> (r: PriceData)
        ensures
            r@ == empty_data(),
    {
        PriceData { block_number: 0, timestamp: 0, price: 0, price_points: Vec::new() }
    }
}

pub open spec fn empty_data() -> PriceDataView {
    PriceDataView { block_number: 0, timestamp: 0, price: 0, points: Seq::empty() }
}

/// `who` already has a point from block `block` and the aggregate was last
/// changed in that block.
pub open spec fn is_duplicate(d: PriceDataView, who: u64, block: u64) -> bool {
    d.block_number == block && exists|i: int|
        0 <= i < d.points.len() && #[trigger] d.points[i].account_id == who
            && d.points[i].block_number == block
}

/// The window after `who` submits `price` in block `block` at time `now`:
/// stale points and `who`'s own point leave, the new point enters in price
/// order.
pub open spec fn window_after(
    d: PriceDataView,
    who: u64,
    price: i64,
    block: u64,
    now: u64,
    timeout: u64,
) -> Seq<PricePoint> {
    insert_by_price(
        kept_points(d.points, now, timeout, who),
        PricePoint { block_number: block, timestamp: now, price, account_id: who },
    )
}

/// The aggregate after an accepted submission.
pub open spec fn data_after(
    d: PriceDataView,
    who: u64,
    price: i64,
    block: u64,
    now: u64,
    timeout: u64,
) -> PriceDataView {
    let w = window_after(d, who, price, block, now, timeout);
    PriceDataView { block_number: block, timestamp: now, price: median_of(w) as i64, points: w }
}

/// What a submission to the window `d` gives: the duplicate error, or the
/// new aggregate.
pub open spec fn submission_outcome(
    d: PriceDataView,
    who: u64,
    price: i64,
    block: u64,
    now: u64,
    timeout: u64,
) -> Result<PriceDataView, Error> {
    if is_duplicate(d, who, block) {
        Err(Error::PriceAlreadyAdded)
    } else {
        Ok(data_after(d, who, price, block, now, timeout))
    }
}

/// A well-formed aggregate: its window is sorted by price with one point
/// per feeder, and a non-empty window's median is the aggregated price.
pub open spec fn data_wf(d: PriceDataView) -> bool {
    window_wf(d.points) && (d.points.len() > 0 ==> d.price == median_of(d.points))
}

/// The single point that an overlay stores, attributed to the system.
pub open spec fn overlay_data(price: i64, block: u64, now: u64) -> PriceDataView {
    PriceDataView {
        block_number: block,
        timestamp: now,
        price,
        points: seq![
            PricePoint { block_number: block, timestamp: now, price, account_id: PRICE_SETTER },
        ],
    }
}

/// The account that overlay prices are attributed to.
pub const PRICE_SETTER: u64 = 0x6f72_6163_6c65_3a3a;

/// What a submission does to an engine: its result and the new table.
pub open spec fn submit_effect(
    o: Oracle,
    who: u64,
    asset: Asset,
    price: i64,
    block: u64,
    now: u64,
    extra_ok: bool,
) -> (Result<i64, Error>, Map<u64, PriceDataView>) {
    match o.validation_spec(who, asset, price, extra_ok) {
        Err(e) => (Err(e), o.table()),
        Ok(_) => match submission_outcome(
            o.data_or_empty(asset.0),
            who,
            price,
            block,
            now,
            o.config.price_timeout,
        ) {
            Err(e) => (Err(e), o.table()),
            Ok(d) => (Ok(d.price), o.table().insert(asset.0, d)),
        },
    }
}

/// Receives every price that the engine accepts for an asset.
pub trait OnPriceSet {
    /// The prices received so far, in order.
    spec fn notified(&self) -> Seq<(Asset, i64)>;

    /// Receives the price set for `asset`.
    fn on_price_set(&mut self, asset: Asset, price: i64)
        ensures
            final(self).notified() == old(self).notified().push((asset, price)),
    ;
}

/// A price consumer that records what it receives.
pub struct PriceLog {
    pub entries: Vec<(Asset, i64)>,
}

impl PriceLog {
    pub fn new() -> (r: PriceLog)
        ensures
            r.notified() == Seq::<(Asset, i64)>::empty(),
    {
        PriceLog { entries: Vec::new() }
    }
}

impl OnPriceSet for PriceLog {
    open spec fn notified(&self) -> Seq<(Asset, i64)> {
        self.entries@
    }

    fn on_price_set(&mut self, asset: Asset, price: i64) {
        self.entries.push((asset, price));
    }
}

/// What a consumer has received after an outcome `r` of a submission of
/// `price` for `asset`: the submitted price once on success, nothing on
/// failure.
pub open spec fn notified_after(
    before: Seq<(Asset, i64)>,
    r: Result<i64, Error>,
    asset: Asset,
    price: i64,
) -> Seq<(Asset, i64)> {
    if r is Ok {
        before.push((asset, price))
    } else {
        before
    }
}

/// Settings of the engine.
#[derive(Clone, Copy, Debug, PartialEq, Eq, Structural)]
pub struct OracleConfig {
    /// Seconds for which a feeder's point stays in the window.
    pub price_timeout: u64,
    /// Seconds for which an aggregate can be read after its last change.
    pub median_price_timeout: u64,
    /// Blocks for which an unsigned update stays valid.
    pub unsigned_lifetime_in_blocks: u64,
    /// Base priority of an unsigned update.
    pub unsigned_priority: u64,
    /// Modulus of the block-dependent part of an unsigned update's priority.
    pub min_transaction_weight: u64,
}

/// The engine: settings, collaborators and the table of aggregates keyed
/// by asset identifier.
pub struct Oracle {
    pub config: OracleConfig,
    pub whitelist: Whitelist,
    pub assets: Vec<Asset>,
    pub special_prices: SpecialPrices,
    pub correlations: DirectPriceCorrelation,
    pub price_points: BTreeMap<u64, PriceData>,
}

impl Oracle {
    /// The table of aggregates.
    pub open spec fn table(&self) -> Map<u64, PriceDataView> {
        self.price_points@.map_values(|d: PriceData| d@)
    }

    /// Every stored aggregate is well formed.
    pub open spec fn wf(&self) -> bool {
        forall|k: u64| #[trigger] self.table().contains_key(k) ==> data_wf(self.table()[k])
    }

    /// The aggregate of `asset`, or an empty one.
    pub open spec fn data_or_empty(&self, asset: u64) -> PriceDataView {
        if self.table().contains_key(asset) {
            self.table()[asset]
        } else {
            empty_data()
        }
    }

    pub open spec fn is_known(&self, asset: Asset) -> bool {
        self.assets@.contains(asset)
    }

    /// Everything but the table is as in `other`.
    pub open spec fn same_settings(&self, other: &Oracle) -> bool {
        &&& self.config == other.config
        &&& self.whitelist == other.whitelist
        &&& self.assets == other.assets
        &&& self.special_prices == other.special_prices
        &&& self.correlations == other.correlations
    }

    /// Adds a point from `who` to the window of `asset` and recomputes the
    /// aggregate; refuses a second point from `who` in the same block. An
    /// accepted price is handed to `sink`.
    pub fn set_price_inner<N: OnPriceSet>(
        &mut self,
        who: u64,
        asset: Asset,
        price: i64,
        block_number: u64,
        now: u64,
        sink: &mut N,
    ) -> (r: Result<i64, Error>)
        requires
            old(self).wf(),
        ensures
            final(self).same_settings(old(self)),
            final(self).wf(),
            final(sink).notified() == notified_after(old(sink).notified(), r, asset, price),
            match submission_outcome(
                old(self).data_or_empty(asset.0),
                who,
                price,
                block_number,
                now,
                old(self).config.price_timeout,
            ) {
                Err(e) => r == Err::<i64, Error>(e) && final(self).table() == old(self).table(),
                Ok(d) => r == Ok::<i64, Error>(d.price) && final(self).table() == old(
                    self,
                ).table().insert(asset.0, d),
            },
    {
        let ghost old_map = self.price_points@;
        let existing = self.price_points.remove(&asset.0);
        let was_present = existing.is_some();
        let mut data = match existing {
            Some(d) => d,
            None => PriceData::empty(),
        };
        assert(data@ == old(self).data_or_empty(asset.0));
        if data.block_number == block_number && has_point_from(
            &data.price_points,
            who,
            block_number,
        ) {
            if was_present {
                self.price_points.insert(asset.0, data);
                assert(self.price_points@ =~= old_map);
            }
            assert(self.price_points@ =~= old_map);
            return Err(Error::PriceAlreadyAdded);
        }
        let mut window = retain_live_points(
            &data.price_points,
            now,
            self.config.price_timeout,
            who,
        );
        proof {
            assert(data_wf(data@));
            lemma_kept_wf(data.price_points@, now, self.config.price_timeout, who);
        }
        insert_point(
            &mut window,
            PricePoint { block_number, timestamp: now, price, account_id: who },
        );
        proof {
            let kept = kept_points(data.price_points@, now, self.config.price_timeout, who);
            let p = PricePoint { block_number, timestamp: now, price, account_id: who };
            lemma_insert_len(kept, p);
            assert(data_wf(data@));
            lemma_kept_wf(data.price_points@, now, self.config.price_timeout, who);
            lemma_insert_wf(kept, p);
            lemma_median_in_range(window@);
        }
        let median = calc_median_price(&window);
        data.block_number = block_number;
        data.timestamp = now;
        data.price = median;
        data.price_points = window;
        self.price_points.insert(asset.0, data);
        assert(data_wf(data@));
        assert(self.table() =~= old(self).table().insert(
            asset.0,
            data_after(
                old(self).data_or_empty(asset.0),
                who,
                price,
                block_number,
                now,
                old(self).config.price_timeout,
            ),
        ));
        sink.on_price_set(asset, price);
        Ok(median)
    }
}

/// Whether some point of `points` is from `who` in block `block`.
fn has_point_from(points: &Vec<PricePoint>, who: u64, block: u64) -> (r: bool)
    ensures
        r == exists|i: int|
            0 <= i < points@.len() && #[trigger] points@[i].account_id == who
                && points@[i].block_number == block,
{
    let mut i: usize = 0;
    while i < points.len()
        invariant
            i <= points.len(),
            forall|k: int|
                0 <= k < i ==> !(#[trigger] points@[k].account_id == who && points@[k].block_number
                    == block),
        decreases points.len() - i,
    {
        if points[i].account_id == who && points[i].block_number == block {
            return true;
        }
        i = i + 1;
    }
    false
}

/// What a read of `d` at time `now` gives.
pub open spec fn read_outcome(d: PriceDataView, now: u64, median_timeout: u64) -> Result<
    i64,
    Error,
> {
    if now >= d.timestamp + median_timeout {
        Err(Error::PriceTimeout)
    } else if d.price == 0 {
        Err(Error::PriceIsZero)
    } else if d.price < 0 {
        Err(Error::PriceIsNegative)
    } else {
        Ok(d.price)
    }
}

impl Oracle {
    /// What a read of `asset` at time `now` gives.
    pub open spec fn read_spec(&self, asset: u64, now: u64) -> Result<i64, Error> {
        read_table(self.table(), asset, now, self.config.median_price_timeout)
    }

    /// The reference price of `asset` at time `now`: refused when no
    /// aggregate is stored, when it is stale, or when it is not positive.
    pub fn get_price(&self, asset: Asset, now: u64) -> (r: Result<i64, Error>)
        ensures
            r == self.read_spec(asset.0, now),
    {
        match self.price_points.get(&asset.0) {
            None => Err(Error::CurrencyNotFound),
            Some(data) => {
                assert(self.table()[asset.0] == data@);
                if now as u128 >= data.timestamp as u128 + self.config.median_price_timeout as u128 {
                    Err(Error::PriceTimeout)
                } else if data.price == 0 {
                    Err(Error::PriceIsZero)
                } else if data.price < 0 {
                    Err(Error::PriceIsNegative)
                } else {
                    Ok(data.price)
                }
            },
        }
    }

    /// What the checks on a submission give, first failure first.
    pub open spec fn validation_spec(
        &self,
        who: u64,
        asset: Asset,
        price: i64,
        extra_ok: bool,
    ) -> Result<(), Error> {
        if !extra_ok {
            Err(Error::AdditionalValidatorFailed)
        } else if !self.whitelist.has(who) {
            Err(Error::NotAllowedToSubmitPrice)
        } else if !self.is_known(asset) {
            Err(Error::AssetNotFound)
        } else if self.special_prices.price_of(asset.0) is Some
            || self.correlations.correlation_of(asset.0) is Some {
            Err(Error::WrongCurrency)
        } else if price < 0 {
            Err(Error::PriceIsNegative)
        } else if price == 0 {
            Err(Error::PriceIsZero)
        } else {
            Ok(())
        }
    }

    /// Checks a proposed price: `extra_ok` is the verdict of the additional
    /// validation hook; then the feeder must be eligible, the asset known
    /// and not overlaid, and the price positive.
    pub fn validate_params(&self, who: u64, asset: Asset, price: i64, extra_ok: bool) -> (r: Result<
        (),
        Error,
    >)
        ensures
            r == self.validation_spec(who, asset, price, extra_ok),
    {
        if !extra_ok {
            return Err(Error::AdditionalValidatorFailed);
        }
        if !self.whitelist.contains(who) {
            return Err(Error::NotAllowedToSubmitPrice);
        }
        if !contains_asset(&self.assets, asset) {
            return Err(Error::AssetNotFound);
        }
        if self.special_prices.convert(asset.0).is_some() || self.correlations.convert(
            asset.0,
        ).is_some() {
            return Err(Error::WrongCurrency);
        }
        if price < 0 {
            return Err(Error::PriceIsNegative);
        }
        if price == 0 {
            return Err(Error::PriceIsZero);
        }
        Ok(())
    }

    /// Validates a submission and, if it passes, adds it to the window and
    /// hands the submitted price to `sink`; returns the new aggregate.
    pub fn set_price<N: OnPriceSet>(
        &mut self,
        who: u64,
        asset: Asset,
        price: i64,
        block_number: u64,
        now: u64,
        extra_ok: bool,
        sink: &mut N,
    ) -> (r: Result<i64, Error>)
        requires
            old(self).wf(),
        ensures
            final(self).same_settings(old(self)),
            final(self).wf(),
            (r, final(self).table()) == submit_effect(
                *old(self),
                who,
                asset,
                price,
                block_number,
                now,
                extra_ok,
            ),
            final(sink).notified() == notified_after(old(sink).notified(), r, asset, price),
    {
        match self.validate_params(who, asset, price, extra_ok) {
            Err(e) => Err(e),
            Ok(()) => self.set_price_inner(who, asset, price, block_number, now, sink),
        }
    }

    /// Replaces the aggregate of `asset` by a single system point at
    /// `price` and hands the price to `sink`.
    pub fn set_the_only_price<N: OnPriceSet>(
        &mut self,
        asset: Asset,
        price: i64,
        block_number: u64,
        now: u64,
        sink: &mut N,
    )
        requires
            old(self).wf(),
        ensures
            final(self).same_settings(old(self)),
            final(self).wf(),
            final(sink).notified() == old(sink).notified().push((asset, price)),
            final(self).table() == old(self).table().insert(
                asset.0,
                overlay_data(price, block_number, now),
            ),
    {
        let mut points: Vec<PricePoint> = Vec::new();
        points.push(
            PricePoint { block_number, timestamp: now, price, account_id: PRICE_SETTER },
        );
        let data = PriceData { block_number, timestamp: now, price, price_points: points };
        assert(data@ == overlay_data(price, block_number, now));
        assert(data_wf(data@));
        self.price_points.insert(asset.0, data);
        assert(self.table() =~= old(self).table().insert(
            asset.0,
            overlay_data(price, block_number, now),
        ));
        sink.on_price_set(asset, price);
    }
}

/// Whether `asset` is among `assets`.
fn contains_asset(assets: &Vec<Asset>, asset: Asset) -> (r: bool)
    ensures
        r == assets@.contains(asset),
{
    let mut i: usize = 0;
    while i < assets.len()
        invariant
            i <= assets.len(),
            forall|k: int| 0 <= k < i ==> assets@[k] != asset,
        decreases assets.len() - i,
    {
        if assets[i].0 == asset.0 {
            assert(assets@[i as int] == asset);
            return true;
        }
        i = i + 1;
    }
    false
}

/// The aggregate left after `who`'s points leave `d`: none when the window
/// becomes empty, the median of the rest when a point left.
pub open spec fn filter_entry(d: PriceDataView, who: u64) -> Option<PriceDataView> {
    let rest = without_feeder(d.points, who);
    if rest.len() == 0 {
        None
    } else if rest.len() != d.points.len() {
        Some(
            PriceDataView {
                block_number: d.block_number,
                timestamp: d.timestamp,
                price: median_of(rest) as i64,
                points: rest,
            },
        )
    } else {
        Some(
            PriceDataView {
                block_number: d.block_number,
                timestamp: d.timestamp,
                price: d.price,
                points: rest,
            },
        )
    }
}

/// The table after `who`'s points leave the aggregate of `asset`.
pub open spec fn filter_step(t: Map<u64, PriceDataView>, asset: u64, who: u64) -> Map<
    u64,
    PriceDataView,
> {
    if !t.contains_key(asset) {
        t
    } else {
        match filter_entry(t[asset], who) {
            None => t.remove(asset),
            Some(d) => t.insert(asset, d),
        }
    }
}

/// The table after `who`'s points leave the aggregates of `assets`, in
/// their order.
pub open spec fn filter_table(t: Map<u64, PriceDataView>, assets: Seq<Asset>, who: u64) -> Map<
    u64,
    PriceDataView,
>
    decreases assets.len(),
{
    if assets.len() == 0 {
        t
    } else {
        filter_step(filter_table(t, assets.drop_last(), who), assets.last().0, who)
    }
}

/// What a read of `asset` in table `t` at time `now` gives.
pub open spec fn read_table(t: Map<u64, PriceDataView>, asset: u64, now: u64, median_timeout: u64) -> Result<
    i64,
    Error,
> {
    if !t.contains_key(asset) {
        Err(Error::CurrencyNotFound)
    } else {
        read_outcome(t[asset], now, median_timeout)
    }
}

/// The table after the overlay of `asset`: a constant price if it has one,
/// else the reference asset's current price times the factor, if that
/// price can be read and the product fits.
pub open spec fn overlay_step(
    o: Oracle,
    t: Map<u64, PriceDataView>,
    asset: u64,
    block: u64,
    now: u64,
) -> Map<u64, PriceDataView> {
    match o.special_prices.price_of(asset) {
        Some(p) => t.insert(asset, overlay_data(p, block, now)),
        None => match o.correlations.correlation_of(asset) {
            None => t,
            Some((reference, factor)) => match read_table(
                t,
                reference,
                now,
                o.config.median_price_timeout,
            ) {
                Err(_) => t,
                Ok(rp) => match fixed_mul_spec(factor, rp) {
                    None => t,
                    Some(v) => t.insert(asset, overlay_data(v, block, now)),
                },
            },
        },
    }
}

/// The table after the overlay of `assets`, in their order.
pub open spec fn overlay_table(
    o: Oracle,
    t: Map<u64, PriceDataView>,
    assets: Seq<Asset>,
    block: u64,
    now: u64,
) -> Map<u64, PriceDataView>
    decreases assets.len(),
{
    if assets.len() == 0 {
        t
    } else {
        overlay_step(o, overlay_table(o, t, assets.drop_last(), block, now), assets.last().0, block, now)
    }
}

/// The price that the overlay of `asset` sets in table `t`, if any.
pub open spec fn overlay_note(
    o: Oracle,
    t: Map<u64, PriceDataView>,
    asset: Asset,
    block: u64,
    now: u64,
) -> Seq<(Asset, i64)> {
    match o.special_prices.price_of(asset.0) {
        Some(p) => seq![(asset, p)],
        None => match o.correlations.correlation_of(asset.0) {
            None => Seq::empty(),
            Some((reference, factor)) => match read_table(
                t,
                reference,
                now,
                o.config.median_price_timeout,
            ) {
                Err(_) => Seq::empty(),
                Ok(rp) => match fixed_mul_spec(factor, rp) {
                    None => Seq::empty(),
                    Some(v) => seq![(asset, v)],
                },
            },
        },
    }
}

/// The prices that the overlay of `assets`, in their order, hands to the
/// price consumer.
pub open spec fn overlay_notes(
    o: Oracle,
    t: Map<u64, PriceDataView>,
    assets: Seq<Asset>,
    block: u64,
    now: u64,
) -> Seq<(Asset, i64)>
    decreases assets.len(),
{
    if assets.len() == 0 {
        Seq::empty()
    } else {
        overlay_notes(o, t, assets.drop_last(), block, now) + overlay_note(
            o,
            overlay_table(o, t, assets.drop_last(), block, now),
            assets.last(),
            block,
            now,
        )
    }
}

/// The table made at genesis: an empty aggregate for every known asset,
/// then the configured initial prices.
pub open spec fn genesis_table(assets: Seq<Asset>, prices: Seq<(Asset, i64)>, date: u64) -> Map<
    u64,
    PriceDataView,
>
    decreases assets.len() + prices.len(),
{
    if prices.len() > 0 {
        genesis_table(assets, prices.drop_last(), date).insert(
            prices.last().0.0,
            PriceDataView {
                block_number: 0,
                timestamp: date,
                price: prices.last().1,
                points: Seq::empty(),
            },
        )
    } else if assets.len() > 0 {
        genesis_table(assets.drop_last(), prices, date).insert(assets.last().0, empty_data())
    } else {
        Map::empty()
    }
}

/// The initial prices and the time they were set.
pub struct GenesisConfig {
    pub prices: Vec<(Asset, i64)>,
    pub update_date: u64,
}

impl Oracle {
    /// Creates the engine with the genesis table.
    pub fn new(
        config: OracleConfig,
        whitelist: Whitelist,
        assets: Vec<Asset>,
        special_prices: SpecialPrices,
        correlations: DirectPriceCorrelation,
        genesis: GenesisConfig,
    ) -> (r: Oracle)
        ensures
            r.config == config,
            r.whitelist == whitelist,
            r.assets == assets,
            r.special_prices == special_prices,
            r.correlations == correlations,
            r.table() == genesis_table(assets@, genesis.prices@, genesis.update_date),
            r.wf(),
    {
        let prices = genesis.prices;
        let update_date = genesis.update_date;
        let mut table: BTreeMap<u64, PriceData> = BTreeMap::new();
        let mut i: usize = 0;
        while i < assets.len()
            invariant
                i <= assets.len(),
                forall|k: u64| #[trigger] table@.contains_key(k) ==> table@[k].price_points@.len() == 0,
                table@.map_values(|d: PriceData| d@) == genesis_table(
                    assets@.take(i as int),
                    Seq::<(Asset, i64)>::empty(),
                    update_date,
                ),
            decreases assets.len() - i,
        {
            let ghost before = table@;
            table.insert(assets[i].0, PriceData::empty());
            assert(assets@.take(i + 1).drop_last() =~= assets@.take(i as int));
            assert(table@.map_values(|d: PriceData| d@) =~= before.map_values(|d: PriceData| d@).insert(
                assets[i as int].0,
                empty_data(),
            ));
            i = i + 1;
        }
        assert(assets@.take(i as int) =~= assets@);
        let mut j: usize = 0;
        assert(prices@.take(0) =~= Seq::<(Asset, i64)>::empty());
        while j < prices.len()
            invariant
                j <= prices.len(),
                forall|k: u64| #[trigger] table@.contains_key(k) ==> table@[k].price_points@.len() == 0,
                table@.map_values(|d: PriceData| d@) == genesis_table(
                    assets@,
                    prices@.take(j as int),
                    update_date,
                ),
            decreases prices.len() - j,
        {
            let (asset, price) = prices[j];
            let ghost before = table@;
            table.insert(
                asset.0,
                PriceData { block_number: 0, timestamp: update_date, price, price_points: Vec::new() },
            );
            assert(prices@.take(j + 1).drop_last() =~= prices@.take(j as int));
            assert(table@.map_values(|d: PriceData| d@) =~= before.map_values(|d: PriceData| d@).insert(
                asset.0,
                PriceDataView {
                    block_number: 0,
                    timestamp: update_date,
                    price,
                    points: Seq::empty(),
                },
            ));
            j = j + 1;
        }
        assert(prices@.take(j as int) =~= prices@);
        Oracle { config, whitelist, assets, special_prices, correlations, price_points: table }
    }

    /// Removes every point of `who` from the aggregates of the known assets;
    /// an aggregate whose window becomes empty is deleted, one that lost a
    /// point gets the median of the rest.
    pub fn filter_prices_from(&mut self, who: u64)
        requires
            old(self).wf(),
        ensures
            final(self).same_settings(old(self)),
            final(self).wf(),
            final(self).table() == filter_table(old(self).table(), old(self).assets@, who),
    {
        let mut i: usize = 0;
        while i < self.assets.len()
            invariant
                self.same_settings(old(self)),
                self.wf(),
                i <= self.assets.len(),
                self.table() == filter_table(old(self).table(), self.assets@.take(i as int), who),
            decreases self.assets.len() - i,
        {
            let asset = self.assets[i].0;
            let ghost t0 = self.table();
            assert(forall|k: u64| #[trigger] t0.contains_key(k) ==> data_wf(t0[k]));
            assert(self.assets@.take(i + 1).drop_last() =~= self.assets@.take(i as int));
            match self.price_points.remove(&asset) {
                None => {
                    assert(!t0.contains_key(asset));
                },
                Some(mut data) => {
                    assert(t0.contains_key(asset));
                    assert(t0[asset] == data@);
                    assert(data_wf(data@));
                    proof {
                        lemma_without_feeder_wf(data.price_points@, who);
                        lemma_without_feeder_elements(data.price_points@, who);
                    }
                    let rest = retain_other_feeders(&data.price_points, who);
                    if rest.len() == 0 {
                        assert(self.table() =~= t0.remove(asset));
                    } else {
                        if rest.len() != data.price_points.len() {
                            data.price = calc_median_price(&rest);
                        } else {
                            proof {
                                lemma_without_feeder_same_len(data.price_points@, who);
                            }
                        }
                        data.price_points = rest;
                        self.price_points.insert(asset, data);
                        assert(data_wf(data@));
                        assert(self.table() =~= t0.insert(asset, filter_entry(t0[asset], who)->0));
                    }
                },
            }
            assert forall|k: u64| #[trigger] self.table().contains_key(k) implies data_wf(
                self.table()[k],
            ) by {
                if k != asset {
                    assert(t0.contains_key(k));
                }
            }
            i = i + 1;
        }
        assert(self.assets@.take(i as int) =~= self.assets@);
    }

    /// Applies the constant and correlated prices to every known asset, in
    /// order, at block `block_number` and time `now`, handing each price set
    /// to `sink`.
    pub fn on_initialize<N: OnPriceSet>(&mut self, block_number: u64, now: u64, sink: &mut N)
        requires
            old(self).wf(),
        ensures
            final(self).same_settings(old(self)),
            final(self).wf(),
            final(sink).notified() == old(sink).notified() + overlay_notes(
                *old(self),
                old(self).table(),
                old(self).assets@,
                block_number,
                now,
            ),
            final(self).table() == overlay_table(
                *old(self),
                old(self).table(),
                old(self).assets@,
                block_number,
                now,
            ),
    {
        let mut i: usize = 0;
        while i < self.assets.len()
            invariant
                self.same_settings(old(self)),
                self.wf(),
                i <= self.assets.len(),
                self.table() == overlay_table(
                    *old(self),
                    old(self).table(),
                    self.assets@.take(i as int),
                    block_number,
                    now,
                ),
                sink.notified() == old(sink).notified() + overlay_notes(
                    *old(self),
                    old(self).table(),
                    self.assets@.take(i as int),
                    block_number,
                    now,
                ),
            decreases self.assets.len() - i,
        {
            let asset = self.assets[i];
            assert(self.assets@.take(i + 1).drop_last() =~= self.assets@.take(i as int));
            let ghost before = sink.notified();
            match self.special_prices.convert(asset.0) {
                Some(price) => {
                    self.set_the_only_price(asset, price, block_number, now, sink);
                },
                None => {
                    match self.correlations.convert(asset.0) {
                        None => {},
                        Some((reference, factor)) => {
                            match self.get_price(Asset(reference), now) {
                                Err(_) => {},
                                Ok(rp) => {
                                    match fixed_mul(factor, rp) {
                                        None => {},
                                        Some(v) => {
                                            self.set_the_only_price(asset, v, block_number, now, sink);
                                        },
                                    }
                                },
                            }
                        },
                    }
                },
            }
            assert(sink.notified() =~= old(sink).notified() + overlay_notes(
                *old(self),
                old(self).table(),
                self.assets@.take(i + 1),
                block_number,
                now,
            ));
            i = i + 1;
        }
        assert(self.assets@.take(i as int) =~= self.assets@);
    }
}

/// The outcome of the submissions `subs` (feeder, price) to the window `d`,
/// one after the other, all in block `block` at time `now`.
pub open spec fn submit_all(
    d: PriceDataView,
    subs: Seq<(u64, i64)>,
    block: u64,
    now: u64,
    timeout: u64,
) -> Result<PriceDataView, Error>
    decreases subs.len(),
{
    if subs.len() == 0 {
        Ok(d)
    } else {
        match submit_all(d, subs.drop_last(), block, now, timeout) {
            Err(e) => Err(e),
            Ok(d2) => submission_outcome(d2, subs.last().0, subs.last().1, block, now, timeout),
        }
    }
}

/// No two submissions come from the same feeder.
pub open spec fn distinct_feeders(subs: Seq<(u64, i64)>) -> bool {
    forall|i: int, j: int| 0 <= i < j < subs.len() ==> subs[i].0 != subs[j].0
}

/// The prices of the submissions, in their order.
pub open spec fn submitted_prices(subs: Seq<(u64, i64)>) -> Seq<i64> {
    subs.map_values(|x: (u64, i64)| x.1)
}

proof fn lemma_round_window(
    d: PriceDataView,
    subs: Seq<(u64, i64)>,
    block: u64,
    now: u64,
    timeout: u64,
)
    requires
        timeout > 0,
        distinct_feeders(subs),
        subs.len() > 0,
        forall|i: int| 0 <= i < d.points.len() ==> (#[trigger] d.points[i]).timestamp + timeout <= now,
        forall|i: int, j: int|
            0 <= i < d.points.len() && 0 <= j < subs.len() ==> (#[trigger] d.points[i]).account_id
                != (#[trigger] subs[j]).0,
    ensures
        submit_all(d, subs, block, now, timeout) is Ok,
        ({
            let e = submit_all(d, subs, block, now, timeout)->Ok_0;
            &&& sorted_by_price(e.points)
            &&& prices_of(e.points).to_multiset() == submitted_prices(subs).to_multiset()
            &&& forall|i: int|
                0 <= i < e.points.len() ==> (#[trigger] e.points[i]).timestamp == now
                    && exists|j: int| 0 <= j < subs.len() && subs[j].0 == e.points[i].account_id
            &&& e.price == median_of(e.points)
        }),
    decreases subs.len(),
{
    broadcast use vstd::seq_lib::group_to_multiset_ensures;

    let init = subs.drop_last();
    let who = subs.last().0;
    let price = subs.last().1;
    let p = PricePoint { block_number: block, timestamp: now, price, account_id: who };
    assert(subs[subs.len() - 1] == subs.last());
    if subs.len() == 1 {
        assert(init.len() == 0);
        assert(submit_all(d, init, block, now, timeout) == Ok::<PriceDataView, Error>(d));
        assert(!is_duplicate(d, who, block)) by {
            if is_duplicate(d, who, block) {
                let i = choose|i: int|
                    0 <= i < d.points.len() && #[trigger] d.points[i].account_id == who
                        && d.points[i].block_number == block;
                assert(d.points[i].account_id != subs[0].0);
            }
        }
        lemma_kept_none(d.points, now, timeout, who);
        let k = kept_points(d.points, now, timeout, who);
        assert(k =~= Seq::<PricePoint>::empty());
        let w = insert_by_price(k, p);
        assert(w == seq![p]);
        assert(prices_of(w) =~= seq![price]);
        assert(submitted_prices(subs) =~= seq![price]);
        assert(seq![price] =~= Seq::<i64>::empty().push(price));
        lemma_median_in_range(w);
        assert(subs[0].0 == w[0].account_id);
    } else {
        assert forall|i: int, j: int| 0 <= i < j < init.len() implies init[i].0 != init[j].0 by {
            assert(init[i] == subs[i] && init[j] == subs[j]);
        }
        assert forall|i: int, j: int|
            0 <= i < d.points.len() && 0 <= j < init.len() implies (#[trigger] d.points[i]).account_id
                != (#[trigger] init[j]).0 by {
            assert(init[j] == subs[j]);
        }
        lemma_round_window(d, init, block, now, timeout);
        let e = submit_all(d, init, block, now, timeout)->Ok_0;
        assert forall|i: int| 0 <= i < e.points.len() implies is_kept(
            #[trigger] e.points[i],
            now,
            timeout,
            who,
        ) by {
            let j = choose|j: int| 0 <= j < init.len() && init[j].0 == e.points[i].account_id;
            assert(subs[j] == init[j]);
        }
        assert(!is_duplicate(e, who, block)) by {
            if is_duplicate(e, who, block) {
                let i = choose|i: int|
                    0 <= i < e.points.len() && #[trigger] e.points[i].account_id == who
                        && e.points[i].block_number == block;
                assert(is_kept(e.points[i], now, timeout, who));
            }
        }
        lemma_kept_all_live(e.points, now, timeout, who);
        let w = insert_by_price(e.points, p);
        lemma_insert_sorted(e.points, p);
        lemma_insert_prices(e.points, p);
        lemma_insert_elements(e.points, p);
        lemma_insert_len(e.points, p);
        lemma_median_in_range(w);
        assert(submitted_prices(subs) =~= submitted_prices(init).push(price));
        assert forall|i: int| 0 <= i < w.len() implies (#[trigger] w[i]).timestamp == now
            && exists|j: int| 0 <= j < subs.len() && subs[j].0 == w[i].account_id by {
            if w[i] == p {
                assert(subs[subs.len() - 1].0 == w[i].account_id);
            } else {
                let k = choose|k: int| 0 <= k < e.points.len() && #[trigger] e.points[k] == w[i];
                assert(e.points[k].timestamp == now);
                let j = choose|j: int| 0 <= j < init.len() && init[j].0 == e.points[k].account_id;
                assert(subs[j] == init[j]);
            }
        }
    }
}

/// The submitted prices in ascending order.
pub open spec fn sorted_prices(subs: Seq<(u64, i64)>) -> Seq<i64> {
    submitted_prices(subs).sort_by(|a: i64, b: i64| a <= b)
}

/// Within one block and one instant, submissions from distinct feeders to a
/// window whose points have all outlived the point timeout, none of them
/// from those feeders, are all accepted; the aggregate is then the median of
/// the submitted prices: with `q` those prices in ascending order, the
/// middle one of `q` for an odd count, the mean of the two middle ones
/// (rounded toward zero) for an even count. A timeout of zero is left out:
/// every point would then evict all others.
pub proof fn lemma_round_median(
    d: PriceDataView,
    subs: Seq<(u64, i64)>,
    block: u64,
    now: u64,
    timeout: u64,
)
    requires
        timeout > 0,
        distinct_feeders(subs),
        subs.len() > 0,
        forall|i: int| 0 <= i < d.points.len() ==> (#[trigger] d.points[i]).timestamp + timeout <= now,
        forall|i: int, j: int|
            0 <= i < d.points.len() && 0 <= j < subs.len() ==> (#[trigger] d.points[i]).account_id
                != (#[trigger] subs[j]).0,
    ensures
        submit_all(d, subs, block, now, timeout) is Ok,
        ({
            let e = submit_all(d, subs, block, now, timeout)->Ok_0;
            let q = sorted_prices(subs);
            let n = subs.len();
            &&& q.len() == n
            &&& prices_of(e.points) == q
            &&& n % 2 == 1 ==> e.price == q[(n / 2) as int]
            &&& n % 2 == 0 ==> e.price == half_toward_zero(q[n / 2 - 1] + q[(n / 2) as int])
        }),
{
    broadcast use vstd::seq_lib::group_to_multiset_ensures;

    lemma_round_window(d, subs, block, now, timeout);
    let e = submit_all(d, subs, block, now, timeout)->Ok_0;
    let leq = |a: i64, b: i64| a <= b;
    assert(total_ordering(leq));
    submitted_prices(subs).lemma_sort_by_ensures(leq);
    let q = sorted_prices(subs);
    let ps = prices_of(e.points);
    assert(sorted_by(ps, leq)) by {
        assert forall|i: int, j: int| 0 <= i < j < ps.len() implies #[trigger] leq(ps[i], ps[j]) by {
            assert(e.points[i].price <= e.points[j].price);
        }
    }
    lemma_sorted_unique(ps, q, leq);
    assert(ps.len() == e.points.len());
    assert(q.len() == q.to_multiset().len());
    assert(submitted_prices(subs).len() == submitted_prices(subs).to_multiset().len());
}

/// After a feeder's submission is accepted in a block, a second one from the
/// same feeder in that block is refused as a duplicate, and one in any other
/// block is accepted and supersedes the first: the window then holds
/// exactly one point of that feeder, the new one.
pub proof fn lemma_one_point_per_block(
    d: PriceDataView,
    who: u64,
    first: i64,
    second: i64,
    block: u64,
    later_block: u64,
    now: u64,
    later: u64,
    timeout: u64,
)
    requires
        submission_outcome(d, who, first, block, now, timeout) is Ok,
        later_block != block,
    ensures
        submission_outcome(
            submission_outcome(d, who, first, block, now, timeout)->Ok_0,
            who,
            second,
            block,
            later,
            timeout,
        ) == Err::<PriceDataView, Error>(Error::PriceAlreadyAdded),
        submission_outcome(
            submission_outcome(d, who, first, block, now, timeout)->Ok_0,
            who,
            second,
            later_block,
            later,
            timeout,
        ) is Ok,
        ({
            let e2 = submission_outcome(
                submission_outcome(d, who, first, block, now, timeout)->Ok_0,
                who,
                second,
                later_block,
                later,
                timeout,
            )->Ok_0;
            let q = PricePoint {
                block_number: later_block,
                timestamp: later,
                price: second,
                account_id: who,
            };
            &&& e2.points.contains(q)
            &&& forall|i: int|
                0 <= i < e2.points.len() && (#[trigger] e2.points[i]).account_id == who
                    ==> e2.points[i] == q
        }),
{
    let e = submission_outcome(d, who, first, block, now, timeout)->Ok_0;
    let p = PricePoint { block_number: block, timestamp: now, price: first, account_id: who };
    lemma_insert_elements(kept_points(d.points, now, timeout, who), p);
    let i = choose|i: int| 0 <= i < e.points.len() && e.points[i] == p;
    assert(e.points[i].account_id == who && e.points[i].block_number == block);
    let q = PricePoint {
        block_number: later_block,
        timestamp: later,
        price: second,
        account_id: who,
    };
    let k = kept_points(e.points, later, timeout, who);
    lemma_kept_elements(e.points, later, timeout, who);
    lemma_insert_elements(k, q);
    let w = insert_by_price(k, q);
    assert forall|j: int| 0 <= j < w.len() && (#[trigger] w[j]).account_id == who implies w[j]
        == q by {
        if w[j] != q {
            let m = choose|m: int| 0 <= m < k.len() && #[trigger] k[m] == w[j];
            assert(is_kept(k[m], later, timeout, who));
        }
    }
}

/// After an accepted submission at time `now`, no point in the window is
/// older than the point timeout, however central its price was.
pub proof fn lemma_stale_points_leave(
    d: PriceDataView,
    who: u64,
    price: i64,
    block: u64,
    now: u64,
    timeout: u64,
)
    requires
        submission_outcome(d, who, price, block, now, timeout) is Ok,
        timeout > 0,
    ensures
        forall|i: int|
            0 <= i < submission_outcome(d, who, price, block, now, timeout)->Ok_0.points.len()
                ==> #[trigger] submission_outcome(
                d,
                who,
                price,
                block,
                now,
                timeout,
            )->Ok_0.points[i].timestamp + timeout > now,
{
    let k = kept_points(d.points, now, timeout, who);
    let p = PricePoint { block_number: block, timestamp: now, price, account_id: who };
    lemma_kept_elements(d.points, now, timeout, who);
    lemma_insert_elements(k, p);
    let w = insert_by_price(k, p);
    assert forall|i: int| 0 <= i < w.len() implies #[trigger] w[i].timestamp + timeout > now by {
        if w[i] != p {
            let j = choose|j: int| 0 <= j < k.len() && #[trigger] k[j] == w[i];
            assert(is_kept(k[j], now, timeout, who));
        }
    }
}

/// A stored aggregate reads as stale exactly when `now` is at least its
/// last update time plus the median timeout; before that a positive
/// aggregate reads as itself.
pub proof fn lemma_read_staleness(t: Map<u64, PriceDataView>, asset: u64, now: u64, timeout: u64)
    requires
        t.contains_key(asset),
    ensures
        (read_table(t, asset, now, timeout) == Err::<i64, Error>(Error::PriceTimeout)) <==> now
            >= t[asset].timestamp + timeout,
        now < t[asset].timestamp + timeout && t[asset].price > 0 ==> read_table(
            t,
            asset,
            now,
            timeout,
        ) == Ok::<i64, Error>(t[asset].price),
{
}

/// Some asset of `assets` has identifier `k`.
pub open spec fn lists_asset(assets: Seq<Asset>, k: u64) -> bool {
    exists|i: int| 0 <= i < assets.len() && #[trigger] assets[i].0 == k
}

proof fn lemma_without_feeder_noop(s: Seq<PricePoint>, who: u64)
    requires
        forall|i: int| 0 <= i < s.len() ==> (#[trigger] s[i]).account_id != who,
    ensures
        without_feeder(s, who) == s,
    decreases s.len(),
{
    if s.len() > 0 {
        let d = s.drop_last();
        assert forall|i: int| 0 <= i < d.len() implies (#[trigger] d[i]).account_id != who by {
            assert(d[i] == s[i]);
        }
        lemma_without_feeder_noop(d, who);
        assert(s[s.len() - 1] == s.last());
        assert(d.push(s.last()) =~= s);
    }
}

proof fn lemma_filter_entry_idempotent(d: PriceDataView, who: u64)
    requires
        filter_entry(d, who) is Some,
    ensures
        filter_entry(filter_entry(d, who)->Some_0, who) == filter_entry(d, who),
{
    let e = filter_entry(d, who)->Some_0;
    lemma_without_feeder_elements(d.points, who);
    lemma_without_feeder_noop(e.points, who);
}

proof fn lemma_filter_table_at(t: Map<u64, PriceDataView>, assets: Seq<Asset>, who: u64, k: u64)
    ensures
        !lists_asset(assets, k) ==> (filter_table(t, assets, who).contains_key(k)
            == t.contains_key(k) && (t.contains_key(k) ==> filter_table(t, assets, who)[k]
            == t[k])),
        lists_asset(assets, k) && !t.contains_key(k) ==> !filter_table(
            t,
            assets,
            who,
        ).contains_key(k),
        lists_asset(assets, k) && t.contains_key(k) ==> match filter_entry(t[k], who) {
            None => !filter_table(t, assets, who).contains_key(k),
            Some(e) => filter_table(t, assets, who).contains_key(k) && filter_table(
                t,
                assets,
                who,
            )[k] == e,
        },
    decreases assets.len(),
{
    if assets.len() > 0 {
        let init = assets.drop_last();
        lemma_filter_table_at(t, init, who, k);
        let prev = filter_table(t, init, who);
        assert(lists_asset(assets, k) <==> lists_asset(init, k) || assets.last().0 == k) by {
            if lists_asset(assets, k) {
                let i = choose|i: int| 0 <= i < assets.len() && #[trigger] assets[i].0 == k;
                if i < init.len() {
                    assert(init[i] == assets[i]);
                }
            }
            if lists_asset(init, k) {
                let i = choose|i: int| 0 <= i < init.len() && #[trigger] init[i].0 == k;
                assert(assets[i] == init[i]);
            }
            if assets.last().0 == k {
                assert(assets[assets.len() - 1].0 == k);
            }
        }
        if assets.last().0 == k && lists_asset(init, k) && t.contains_key(k) && filter_entry(
            t[k],
            who,
        ) is Some {
            lemma_filter_entry_idempotent(t[k], who);
        }
    }
}

/// Removing a feeder from the listed assets: an aggregate whose points are
/// all the feeder's (an empty one included) is deleted; one with points of
/// other feeders keeps those points in order, its block and time, and gets
/// the median of the rest when the feeder had a point there, its old price
/// otherwise. Aggregates of assets not listed are untouched.
pub proof fn lemma_remove_feeder(t: Map<u64, PriceDataView>, assets: Seq<Asset>, who: u64, k: u64)
    ensures
        lists_asset(assets, k) && t.contains_key(k) && (forall|i: int|
            0 <= i < t[k].points.len() ==> (#[trigger] t[k].points[i]).account_id == who)
            ==> !filter_table(t, assets, who).contains_key(k),
        lists_asset(assets, k) && t.contains_key(k) && (exists|j: int|
            0 <= j < t[k].points.len() && (#[trigger] t[k].points[j]).account_id != who) ==> {
            let rest = without_feeder(t[k].points, who);
            let e = filter_table(t, assets, who)[k];
            &&& filter_table(t, assets, who).contains_key(k)
            &&& e.points == rest
            &&& e.block_number == t[k].block_number
            &&& e.timestamp == t[k].timestamp
            &&& e.price == if exists|i: int|
                0 <= i < t[k].points.len() && (#[trigger] t[k].points[i]).account_id == who {
                median_of(rest)
            } else {
                t[k].price as int
            }
        },
        !lists_asset(assets, k) ==> filter_table(t, assets, who).contains_key(k)
            == t.contains_key(k) && (t.contains_key(k) ==> filter_table(t, assets, who)[k]
            == t[k]),
{
    lemma_filter_table_at(t, assets, who, k);
    if t.contains_key(k) {
        let s = t[k].points;
        let rest = without_feeder(s, who);
        lemma_without_feeder_elements(s, who);
        if forall|i: int| 0 <= i < s.len() ==> (#[trigger] s[i]).account_id == who {
            if rest.len() > 0 {
                let j = choose|j: int| 0 <= j < s.len() && #[trigger] s[j] == rest[0];
                assert(s[j].account_id == who);
            }
        }
        if exists|j: int| 0 <= j < s.len() && (#[trigger] s[j]).account_id != who {
            let j = choose|j: int| 0 <= j < s.len() && (#[trigger] s[j]).account_id != who;
            assert(rest.contains(s[j]));
            if exists|i: int| 0 <= i < s.len() && (#[trigger] s[i]).account_id == who {
                let i = choose|i: int| 0 <= i < s.len() && (#[trigger] s[i]).account_id == who;
                if rest.len() == s.len() {
                    lemma_rest_shorter(s, who, i);
                }
                lemma_median_in_range(rest);
            } else {
                lemma_without_feeder_noop(s, who);
            }
        }
    }
}

proof fn lemma_rest_shorter(s: Seq<PricePoint>, who: u64, i: int)
    requires
        0 <= i < s.len(),
        s[i].account_id == who,
    ensures
        without_feeder(s, who).len() < s.len(),
    decreases s.len(),
{
    let d = s.drop_last();
    lemma_without_feeder_elements(d, who);
    if i < s.len() - 1 {
        assert(d[i] == s[i]);
        lemma_rest_shorter(d, who, i);
    }
}

} // verus!

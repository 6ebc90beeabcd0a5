//! Compact asset identifiers: up to eight ASCII letters or digits, folded to
//! lower case and packed big-endian into a `u64`.
use vstd::prelude::*;
use vstd::string::StringExecFns;
use vstd::utf8::{decode_utf8, valid_utf8};

verus! {

/// Errors raised while building an asset identifier.
#[derive(Debug, Clone, Copy, PartialEq, Eq, Structural)]
pub enum AssetError {
    DebtWeightNegative,
    DebtWeightMoreThanOne,
    AssetNameWrongLength,
    AssetNameWrongSymbols,
    PriceStepNegative,
}

/// An asset identifier: the name's bytes packed big-endian into a `u64`.
#[derive(Clone, Copy, Debug, PartialEq, Eq, Structural, PartialOrd, Ord, Hash, Default)]
pub struct Asset(pub u64);

/// Number of bytes an identifier can hold.
pub const SIZE_OF_ASSET_ID_INNER: usize = 8;

pub open spec fn is_upper_byte(b: u8) -> bool {
    65 <= b <= 90
}

pub open spec fn is_lower_byte(b: u8) -> bool {
    97 <= b <= 122
}

pub open spec fn is_digit_byte(b: u8) -> bool {
    48 <= b <= 57
}

/// ASCII case folding of one byte.
pub open spec fn fold_byte(b: u8) -> u8 {
    if is_upper_byte(b) {
        (b + 32) as u8
    } else {
        b
    }
}

/// A byte that may appear in a folded asset name.
pub open spec fn is_symbol_byte(b: u8) -> bool {
    is_digit_byte(b) || is_lower_byte(b)
}

/// Every byte of `s`, once folded, is a lower-case letter or a digit.
pub open spec fn valid_name(s: Seq<u8>) -> bool {
    forall|i: int| 0 <= i < s.len() ==> #[trigger] is_symbol_byte(fold_byte(s[i]))
}

/// `s` folded to lower case.
pub open spec fn lowercase(s: Seq<u8>) -> Seq<u8> {
    s.map_values(|b: u8| fold_byte(b))
}

/// The number whose big-endian base-256 digits are `s`.
pub open spec fn be_value(s: Seq<u8>) -> nat
    decreases s.len(),
{
    if s.len() == 0 {
        0
    } else {
        be_value(s.drop_last()) * 256 + s.last() as nat
    }
}

/// The last `n` big-endian base-256 digits of `x`.
pub open spec fn be_bytes(x: nat, n: nat) -> Seq<u8>
    decreases n,
{
    if n == 0 {
        Seq::empty()
    } else {
        be_bytes(x / 256, (n - 1) as nat).push((x % 256) as u8)
    }
}

/// `s` with its zero bytes removed.
pub open spec fn nonzero_bytes(s: Seq<u8>) -> Seq<u8>
    decreases s.len(),
{
    if s.len() == 0 {
        s
    } else if s.last() == 0 {
        nonzero_bytes(s.drop_last())
    } else {
        nonzero_bytes(s.drop_last()).push(s.last())
    }
}

pub open spec fn pow256(n: nat) -> nat
    decreases n,
{
    if n == 0 {
        1
    } else {
        256 * pow256((n - 1) as nat)
    }
}

pub open spec fn zero_bytes(n: nat) -> Seq<u8> {
    Seq::new(n, |i: int| 0u8)
}

/// The identifier that encodes the (already folded) name `s`.
pub open spec fn encode_name(s: Seq<u8>) -> u64 {
    be_value(s) as u64
}

/// The name that identifier `id` stands for: its eight big-endian bytes
/// without the zero padding.
pub open spec fn decode_name(id: u64) -> Seq<u8> {
    nonzero_bytes(be_bytes(id as nat, 8))
}

proof fn lemma_pow256_monotonic(i: nat, j: nat)
    requires
        i <= j,
    ensures
        pow256(i) <= pow256(j),
    decreases j,
{
    if i < j {
        lemma_pow256_monotonic(i, (j - 1) as nat);
    }
}

proof fn lemma_pow256_eight()
    ensures
        pow256(8) == 0x1_0000_0000_0000_0000,
{
    reveal_with_fuel(pow256, 9);
}

proof fn lemma_be_value_bound(s: Seq<u8>)
    ensures
        be_value(s) < pow256(s.len()),
    decreases s.len(),
{
    if s.len() > 0 {
        let p = be_value(s.drop_last());
        lemma_be_value_bound(s.drop_last());
        let q = pow256(s.drop_last().len());
        let l = s.last() as nat;
        assert(p * 256 + l < q * 256) by (nonlinear_arith)
            requires
                p < q,
                l < 256,
        ;
    }
}

proof fn lemma_be_bytes_of_value(s: Seq<u8>, n: nat)
    requires
        s.len() <= n,
    ensures
        be_bytes(be_value(s), n) == zero_bytes((n - s.len()) as nat) + s,
    decreases n,
{
    if n == 0 {
        assert(zero_bytes(0) + s =~= s);
    } else if s.len() == 0 {
        lemma_be_bytes_of_value(s, (n - 1) as nat);
        assert(zero_bytes((n - 1) as nat).push(0u8) =~= zero_bytes(n));
        assert(zero_bytes(n) + s =~= zero_bytes(n));
        assert(zero_bytes((n - 1) as nat) + s =~= zero_bytes((n - 1) as nat));
    } else {
        let d = s.drop_last();
        let p = be_value(d);
        let l = s.last() as nat;
        assert((p * 256 + l) / 256 == p && (p * 256 + l) % 256 == l) by (nonlinear_arith)
            requires
                l < 256,
        ;
        lemma_be_bytes_of_value(d, (n - 1) as nat);
        assert(zero_bytes((n - s.len()) as nat) + s =~= (zero_bytes(((n - 1) - d.len()) as nat)
            + d).push(s.last()));
    }
}

proof fn lemma_nonzero_of_padded(z: nat, s: Seq<u8>)
    requires
        forall|i: int| 0 <= i < s.len() ==> s[i] != 0,
    ensures
        nonzero_bytes(zero_bytes(z) + s) == s,
    decreases s.len(), z,
{
    if s.len() == 0 {
        assert(zero_bytes(z) + s =~= zero_bytes(z));
        if z > 0 {
            lemma_nonzero_of_padded((z - 1) as nat, s);
            assert(zero_bytes(z).drop_last() =~= zero_bytes((z - 1) as nat) + s);
        }
    } else {
        lemma_nonzero_of_padded(z, s.drop_last());
        assert((zero_bytes(z) + s).drop_last() =~= zero_bytes(z) + s.drop_last());
        assert(s.drop_last().push(s.last()) =~= s);
    }
}

/// Encoding a valid name and decoding the identifier gives back the name
/// folded to lower case.
pub proof fn lemma_name_round_trip(s: Seq<u8>)
    requires
        1 <= s.len() <= SIZE_OF_ASSET_ID_INNER,
        valid_name(s),
    ensures
        decode_name(encode_name(lowercase(s))) == lowercase(s),
{
    let l = lowercase(s);
    lemma_be_value_bound(l);
    lemma_pow256_monotonic(l.len(), 8);
    lemma_pow256_eight();
    assert forall|i: int| 0 <= i < l.len() implies l[i] != 0 by {
        assert(is_symbol_byte(fold_byte(s[i])));
    }
    lemma_be_bytes_of_value(l, 8);
    lemma_nonzero_of_padded((8 - l.len()) as nat, l);
}

impl Asset {
    /// Builds an identifier from a name of one to eight ASCII letters or
    /// digits; upper-case letters are folded to lower case.
    pub fn from_bytes(asset: Vec<u8>) -> (r: Result<Asset, AssetError>)
        ensures
            (asset.len() == 0 || asset.len() > SIZE_OF_ASSET_ID_INNER) ==> r == Err::<
                Asset,
                AssetError,
            >(AssetError::AssetNameWrongLength),
            1 <= asset.len() <= SIZE_OF_ASSET_ID_INNER && !valid_name(asset@) ==> r == Err::<
                Asset,
                AssetError,
            >(AssetError::AssetNameWrongSymbols),
            1 <= asset.len() <= SIZE_OF_ASSET_ID_INNER && valid_name(asset@) ==> r == Ok::<
                Asset,
                AssetError,
            >(Asset(encode_name(lowercase(asset@)))),
    {
        if asset.len() == 0 || asset.len() > SIZE_OF_ASSET_ID_INNER {
            return Err(AssetError::AssetNameWrongLength);
        }
        let mut asset = asset;
        if !Self::lower_case(&mut asset) {
            return Err(AssetError::AssetNameWrongSymbols);
        }
        let ghost s = asset@;
        proof {
            lemma_be_value_bound(s);
            lemma_pow256_monotonic(s.len(), 8);
            lemma_pow256_eight();
        }
        let mut id: u64 = 0;
        let mut i: usize = 0;
        while i < asset.len()
            invariant
                s == asset@,
                s.len() <= 8,
                i <= s.len(),
                id as nat == be_value(s.take(i as int)),
            decreases s.len() - i,
        {
            proof {
                lemma_be_value_bound(s.take(i as int));
                lemma_pow256_monotonic(i as nat + 1, 8);
                lemma_pow256_eight();
                let p = id as nat;
                let q = pow256(i as nat);
                let b = asset[i as int] as nat;
                assert(pow256(i as nat + 1) == 256 * q);
                assert(p * 256 + b < q * 256) by (nonlinear_arith)
                    requires
                        p < q,
                        b < 256,
                ;
                assert(s.take(i + 1).drop_last() =~= s.take(i as int));
            }
            id = id * 256 + asset[i] as u64;
            i = i + 1;
        }
        assert(s.take(i as int) =~= s);
        Ok(Asset(id))
    }

    /// The name's bytes, suitable for building a UTF-8 string.
    pub fn to_str_bytes(&self) -> (r: Vec<u8>)
        ensures
            r@ == decode_name(self.0),
    {
        let all = be_bytes_exec(self.0, 8);
        let mut out: Vec<u8> = Vec::new();
        let mut i: usize = 0;
        while i < all.len()
            invariant
                all@ == be_bytes(self.0 as nat, 8),
                i <= all.len(),
                out@ == nonzero_bytes(all@.take(i as int)),
            decreases all.len() - i,
        {
            assert(all@.take(i + 1).drop_last() =~= all@.take(i as int));
            if all[i] != 0 {
                out.push(all[i]);
            }
            i = i + 1;
        }
        assert(all@.take(i as int) =~= all@);
        out
    }

    /// Folds upper-case ASCII letters to lower case in place and reports
    /// whether every byte is then a lower-case letter or a digit.
    pub fn lower_case(asset: &mut Vec<u8>) -> (r: bool)
        ensures
            r == valid_name(old(asset)@),
            final(asset).len() == old(asset).len(),
            r ==> final(asset)@ == lowercase(old(asset)@),
            !r ==> exists|k: int|
                0 <= k < old(asset)@.len() && !is_symbol_byte(fold_byte(#[trigger] old(asset)@[k]))
                    && (forall|j: int|
                    0 <= j < k ==> is_symbol_byte(fold_byte(#[trigger] old(asset)@[j])))
                    && final(asset)@ == lowercase(old(asset)@.take(k + 1)) + old(asset)@.skip(
                    k + 1,
                ),
    {
        let ghost orig = asset@;
        let mut i: usize = 0;
        while i < asset.len()
            invariant
                orig == old(asset)@,
                asset.len() == orig.len(),
                i <= orig.len(),
                forall|k: int| 0 <= k < i ==> asset@[k] == fold_byte(orig[k]),
                forall|k: int| i <= k < orig.len() ==> asset@[k] == orig[k],
                forall|k: int| 0 <= k < i ==> #[trigger] is_symbol_byte(fold_byte(orig[k])),
            decreases orig.len() - i,
        {
            let b = asset[i];
            let folded = if b >= 65 && b <= 90 {
                b + 32
            } else {
                b
            };
            asset.set(i, folded);
            if !((folded >= 48 && folded <= 57) || (folded >= 97 && folded <= 122)) {
                assert(!is_symbol_byte(fold_byte(orig[i as int])));
                assert(asset@ =~= lowercase(orig.take(i + 1)) + orig.skip(i + 1));
                return false;
            }
            i = i + 1;
        }
        assert(asset@ =~= lowercase(orig));
        true
    }
}

fn be_bytes_exec(x: u64, n: usize) -> (r: Vec<u8>)
    ensures
        r@ == be_bytes(x as nat, n as nat),
        r.len() == n,
    decreases n,
{
    if n == 0 {
        Vec::new()
    } else {
        let mut v = be_bytes_exec(x / 256, n - 1);
        v.push((x % 256) as u8);
        v
    }
}

/// Relies on `String::from_utf8`: it succeeds exactly on valid UTF-8 and
/// then holds the decoded characters.
#[verifier::external_body]
pub(crate) fn utf8_string(bytes: Vec<u8>) -> (r: Option<String>)
    ensures
        r is Some == valid_utf8(bytes@),
        r matches Some(s) ==> s@ == decode_utf8(bytes@),
{
    String::from_utf8(bytes).ok()
}

/// The name bytes that a venue with unusual tickers (`is_kraken`) expects
/// in place of `name`, or `name` itself.
pub open spec fn venue_name(name: Seq<u8>, is_kraken: bool) -> Option<Seq<char>> {
    if is_kraken && name == seq![101u8, 116u8, 104u8] {
        Some("xethz"@)
    } else if is_kraken && name == seq![98u8, 116u8, 99u8] {
        Some("xxbtz"@)
    } else if is_kraken && name == seq![117u8, 115u8, 100u8, 116u8] {
        Some("usdtz"@)
    } else {
        None
    }
}

/// Identifiers that can be shown as ticker symbols.
pub trait AsSymbol {
    /// The symbol, if there is one.
    spec fn symbol_spec(&self) -> Option<Seq<char>>;

    /// The symbol used in queries, if there is one.
    spec fn query_symbol_spec(&self, is_kraken: bool) -> Option<Seq<char>>;

    /// The symbol used inside the oracle.
    fn get_symbol(&self) -> (r: Option<String>)
        ensures
            (match r {
                Some(s) => Some(s@),
                None => None,
            }) == self.symbol_spec(),
    ;

    /// The symbol used in price queries; `is_kraken` selects the spelling of
    /// a venue that writes some tickers its own way.
    fn get_query_symbol(&self, is_kraken: bool) -> (r: Option<String>)
        ensures
            (match r {
                Some(s) => Some(s@),
                None => None,
            }) == self.query_symbol_spec(is_kraken),
    ;
}

impl AsSymbol for Asset {
    open spec fn symbol_spec(&self) -> Option<Seq<char>> {
        if valid_utf8(decode_name(self.0)) {
            Some(decode_utf8(decode_name(self.0)))
        } else {
            None
        }
    }

    open spec fn query_symbol_spec(&self, is_kraken: bool) -> Option<Seq<char>> {
        match self.symbol_spec() {
            None => None,
            Some(s) => match venue_name(decode_name(self.0), is_kraken) {
                Some(v) => Some(v),
                None => Some(s),
            },
        }
    }

    fn get_symbol(&self) -> (r: Option<String>) {
        utf8_string(self.to_str_bytes())
    }

    fn get_query_symbol(&self, is_kraken: bool) -> (r: Option<String>) {
        let name = self.to_str_bytes();
        let symbol = match utf8_string(self.to_str_bytes()) {
            None => return None,
            Some(s) => s,
        };
        if is_kraken && name.len() == 3 && name[0] == 101 && name[1] == 116 && name[2] == 104 {
            assert(name@ =~= seq![101u8, 116u8, 104u8]);
            return Some(String::from_str("xethz"));
        }
        if is_kraken && name.len() == 3 && name[0] == 98 && name[1] == 116 && name[2] == 99 {
            assert(name@ =~= seq![98u8, 116u8, 99u8]);
            return Some(String::from_str("xxbtz"));
        }
        if is_kraken && name.len() == 4 && name[0] == 117 && name[1] == 115 && name[2] == 100
            && name[3] == 116 {
            assert(name@ =~= seq![117u8, 115u8, 100u8, 116u8]);
            return Some(String::from_str("usdtz"));
        }
        assert(venue_name(name@, is_kraken) is None);
        Some(symbol)
    }
}

} // verus!

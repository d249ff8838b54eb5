//! Rules of spot holdings and leveraged contracts that do not depend on
//! amounts: the sign of a contract's profit, which liquidation formula
//! applies, defaults, and how an edit combines with what is stored.

use vstd::prelude::*;

use crate::text::str_equal;

verus! {

/// The side of a contract position.
#[derive(Debug, Clone, Copy, PartialEq, Eq, Structural)]
pub enum PositionSide {
    Long,
    Short,
}

/// Which liquidation estimate applies, at the crypto exchanges' maintenance
/// margin rate of about 0.5%: `open_price * (1 - 1/leverage ± rate)` for a
/// long position and `open_price * (1 + 1/leverage ± rate)` for a short one,
/// the rate added when `rate_added` holds and subtracted otherwise.
#[derive(Debug, Clone, Copy, PartialEq, Eq, Structural)]
pub struct LiquidationTerms {
    pub side: PositionSide,
    pub rate_added: bool,
}

/// The side named by a position type, if it names one.
pub open spec fn side_of(position_type: Seq<char>) -> Option<PositionSide> {
    if position_type == "long"@ {
        Some(PositionSide::Long)
    } else if position_type == "short"@ {
        Some(PositionSide::Short)
    } else {
        None
    }
}

/// The side named by a position type (`long` or `short`), if any.
pub fn position_side(position_type: &str) -> (r: Option<PositionSide>)
    ensures
        r == side_of(position_type@),
{
    if str_equal(position_type, "long") {
        Some(PositionSide::Long)
    } else if str_equal(position_type, "short") {
        Some(PositionSide::Short)
    } else {
        None
    }
}

/// The sign of a contract's price gain in its realised profit: `+1` for a
/// long position, `-1` for any other.
pub fn pnl_direction(position_type: &str) -> (r: i8)
    ensures
        r == (if position_type@ == "long"@ {
            1i8
        } else {
            -1i8
        }),
{
    if str_equal(position_type, "long") {
        1
    } else {
        -1
    }
}

/// The liquidation estimate of a stored contract: only `crypto` assets with
/// positive leverage and a known side have one (a liquidation estimate is
/// for crypto positions only), with the rate added on either side.
pub open spec fn stored_terms_of(asset_type: Seq<char>, position_type: Seq<char>, leverage_positive: bool) -> Option<
    LiquidationTerms,
> {
    if !leverage_positive || asset_type != "crypto"@ {
        None
    } else {
        match side_of(position_type) {
            Some(side) => Some(LiquidationTerms { side, rate_added: true }),
            None => None,
        }
    }
}

/// The liquidation estimate shown for a contract read back from storage.
pub fn stored_liquidation_terms(asset_type: &str, position_type: &str, leverage_positive: bool) -> (r:
    Option<LiquidationTerms>)
    ensures
        r == stored_terms_of(asset_type@, position_type@, leverage_positive),
{
    if !leverage_positive || !str_equal(asset_type, "crypto") {
        return None;
    }
    match position_side(position_type) {
        Some(side) => Some(LiquidationTerms { side, rate_added: true }),
        None => None,
    }
}

/// The liquidation estimate of a contract just created or edited: only
/// `crypto` assets with positive leverage and a known side have one, the rate
/// added for a long position and subtracted for a short one.
pub open spec fn entry_terms_of(asset_type: Seq<char>, position_type: Seq<char>, leverage_positive: bool) -> Option<
    LiquidationTerms,
> {
    if !leverage_positive || asset_type != "crypto"@ {
        None
    } else {
        match side_of(position_type) {
            Some(side) => Some(
                LiquidationTerms { side, rate_added: side == PositionSide::Long },
            ),
            None => None,
        }
    }
}

/// The liquidation estimate returned when a contract is created or edited.
pub fn entry_liquidation_terms(asset_type: &str, position_type: &str, leverage_positive: bool) -> (r:
    Option<LiquidationTerms>)
    ensures
        r == entry_terms_of(asset_type@, position_type@, leverage_positive),
{
    if !leverage_positive || !str_equal(asset_type, "crypto") {
        return None;
    }
    match position_side(position_type) {
        Some(PositionSide::Long) => Some(
            LiquidationTerms { side: PositionSide::Long, rate_added: true },
        ),
        Some(PositionSide::Short) => Some(
            LiquidationTerms { side: PositionSide::Short, rate_added: false },
        ),
        None => None,
    }
}

/// The asset type of a new contract: `crypto` when none is given.
pub fn default_asset_type(asset_type: String) -> (r: String)
    ensures
        r@ == (if asset_type@.len() == 0 {
            "crypto"@
        } else {
            asset_type@
        }),
{
    if asset_type.as_str().is_empty() {
        "crypto".to_owned()
    } else {
        asset_type
    }
}

/// A contract edit's text field: the stored value when the edit leaves it
/// empty, else the edit's value.
pub fn non_empty_or(given: String, stored: String) -> (r: String)
    ensures
        r@ == (if given@.len() == 0 {
            stored@
        } else {
            given@
        }),
{
    if given.as_str().is_empty() {
        stored
    } else {
        given
    }
}

/// The text fields of a spot holding.
#[derive(Debug, Clone)]
pub struct SpotDetails {
    pub symbol: String,
    pub name: Option<String>,
    pub exchange: Option<String>,
    pub notes: Option<String>,
}

/// An edit of a spot holding's text fields: each given field replaces the
/// stored one.
#[derive(Debug, Clone)]
pub struct SpotDetailsEdit {
    pub symbol: Option<String>,
    pub name: Option<String>,
    pub exchange: Option<String>,
    pub notes: Option<String>,
}

/// An edited optional field: the edit's value when given, else the stored one.
pub open spec fn edited<T>(given: Option<T>, stored: Option<T>) -> Option<T> {
    match given {
        Some(v) => Some(v),
        None => stored,
    }
}

/// The characters of an optional string.
pub open spec fn text_view(o: Option<String>) -> Option<Seq<char>> {
    match o {
        Some(s) => Some(s@),
        None => None,
    }
}

impl SpotDetails {
    /// The characters of every field.
    pub open spec fn view_fields(&self) -> (Seq<char>, Option<Seq<char>>, Option<Seq<char>>, Option<Seq<char>>) {
        (self.symbol@, text_view(self.name), text_view(self.exchange), text_view(self.notes))
    }
}

impl SpotDetailsEdit {
    /// The characters of every field.
    pub open spec fn view_fields(&self) -> (
        Option<Seq<char>>,
        Option<Seq<char>>,
        Option<Seq<char>>,
        Option<Seq<char>>,
    ) {
        (text_view(self.symbol), text_view(self.name), text_view(self.exchange), text_view(self.notes))
    }
}

/// The fields after an edit, by characters.
pub open spec fn merged_fields(
    edit: (Option<Seq<char>>, Option<Seq<char>>, Option<Seq<char>>, Option<Seq<char>>),
    stored: (Seq<char>, Option<Seq<char>>, Option<Seq<char>>, Option<Seq<char>>),
) -> (Seq<char>, Option<Seq<char>>, Option<Seq<char>>, Option<Seq<char>>) {
    (
        match edit.0 {
            Some(s) => s,
            None => stored.0,
        },
        edited(edit.1, stored.1),
        edited(edit.2, stored.2),
        edited(edit.3, stored.3),
    )
}

fn pick(given: Option<String>, stored: Option<String>) -> (r: Option<String>)
    ensures
        text_view(r) == edited(text_view(given), text_view(stored)),
{
    match given {
        Some(v) => Some(v),
        None => stored,
    }
}

/// Applies an edit to a spot holding's stored text fields.
pub fn merge_spot_details(edit: SpotDetailsEdit, stored: SpotDetails) -> (r: SpotDetails)
    ensures
        r.view_fields() == merged_fields(edit.view_fields(), stored.view_fields()),
{
    let symbol = match edit.symbol {
        Some(s) => s,
        None => stored.symbol,
    };
    SpotDetails {
        symbol,
        name: pick(edit.name, stored.name),
        exchange: pick(edit.exchange, stored.exchange),
        notes: pick(edit.notes, stored.notes),
    }
}

} // verus!

verus! {

/// An edit that gives no field leaves the stored fields as they are.
pub proof fn lemma_empty_edit_keeps(stored: (Seq<char>, Option<Seq<char>>, Option<Seq<char>>, Option<Seq<char>>))
    ensures
        merged_fields((None, None, None, None), stored) == stored,
{
}

/// Applying the same edit twice gives what applying it once gives.
pub proof fn lemma_edit_idempotent(
    edit: (Option<Seq<char>>, Option<Seq<char>>, Option<Seq<char>>, Option<Seq<char>>),
    stored: (Seq<char>, Option<Seq<char>>, Option<Seq<char>>, Option<Seq<char>>),
)
    ensures
        merged_fields(edit, merged_fields(edit, stored)) == merged_fields(edit, stored),
{
}

/// Every field the edit gives ends up stored.
pub proof fn lemma_given_fields_win(
    edit: (Option<Seq<char>>, Option<Seq<char>>, Option<Seq<char>>, Option<Seq<char>>),
    stored: (Seq<char>, Option<Seq<char>>, Option<Seq<char>>, Option<Seq<char>>),
)
    ensures
        edit.0 matches Some(s) ==> merged_fields(edit, stored).0 == s,
        edit.1 is Some ==> merged_fields(edit, stored).1 == edit.1,
        edit.2 is Some ==> merged_fields(edit, stored).2 == edit.2,
        edit.3 is Some ==> merged_fields(edit, stored).3 == edit.3,
{
}

/// A field that the edit leaves out keeps its stored value, whatever the
/// edit gives for the other fields.
pub proof fn lemma_absent_fields_kept(
    edit: (Option<Seq<char>>, Option<Seq<char>>, Option<Seq<char>>, Option<Seq<char>>),
    stored: (Seq<char>, Option<Seq<char>>, Option<Seq<char>>, Option<Seq<char>>),
)
    ensures
        edit.0 is None ==> merged_fields(edit, stored).0 == stored.0,
        edit.1 is None ==> merged_fields(edit, stored).1 == stored.1,
        edit.2 is None ==> merged_fields(edit, stored).2 == stored.2,
        edit.3 is None ==> merged_fields(edit, stored).3 == stored.3,
{
}

/// Only crypto contracts have a liquidation estimate, whether just entered
/// or read back from storage, for every side and leverage.
pub proof fn lemma_only_crypto_liquidates(asset_type: Seq<char>, position_type: Seq<char>, leverage_positive: bool)
    ensures
        asset_type != "crypto"@ ==> entry_terms_of(asset_type, position_type, leverage_positive) is None,
        asset_type != "crypto"@ ==> stored_terms_of(asset_type, position_type, leverage_positive) is None,
        !leverage_positive ==> entry_terms_of(asset_type, position_type, leverage_positive) is None,
        !leverage_positive ==> stored_terms_of(asset_type, position_type, leverage_positive) is None,
{
}

/// A crypto contract with positive leverage and a known side has an estimate
/// on that side: entered long adds the rate, entered short subtracts it, and
/// one read back from storage adds it on either side.
pub proof fn lemma_crypto_liquidation_side(position_type: Seq<char>)
    ensures
        position_type == "long"@ ==> entry_terms_of("crypto"@, position_type, true) == Some(
            LiquidationTerms { side: PositionSide::Long, rate_added: true },
        ),
        position_type == "short"@ ==> entry_terms_of("crypto"@, position_type, true) == Some(
            LiquidationTerms { side: PositionSide::Short, rate_added: false },
        ),
        position_type == "long"@ ==> stored_terms_of("crypto"@, position_type, true) == Some(
            LiquidationTerms { side: PositionSide::Long, rate_added: true },
        ),
        position_type == "short"@ ==> stored_terms_of("crypto"@, position_type, true) == Some(
            LiquidationTerms { side: PositionSide::Short, rate_added: true },
        ),
        position_type != "long"@ && position_type != "short"@ ==> entry_terms_of("crypto"@, position_type, true) is None,
        position_type != "long"@ && position_type != "short"@ ==> stored_terms_of("crypto"@, position_type, true) is None,
{
    if position_type == "short"@ {
        reveal_strlit("long");
        reveal_strlit("short");
        assert(position_type[0] != "long"@[0]);
    }
}

} // verus!

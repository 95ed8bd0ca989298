//! Which market data the exchange reads for a deal price.
use vstd::prelude::*;
use vstd::string::*;
use crate::error::BtError;
use crate::types::DealPrice;

verus! {

/// Whether the loaded wap data (its window, if any was loaded) is joined to the
/// stock bars for `deal_price`.
///
/// A window deal price needs wap data of the same window (`InvalidParam` error
/// otherwise); a basic deal price ignores any wap data.
pub fn wap_use(deal_price: DealPrice, loaded: Option<u8>) -> (r: Result<bool, BtError>)
    ensures
        match deal_price {
            DealPrice::Wap { window, .. } => match r {
                Ok(used) => used && loaded == Some(window),
                Err(e) => e is InvalidParam && loaded != Some(window),
            },
            _ => r == Ok::<bool, BtError>(false),
        },
{
    match deal_price {
        DealPrice::Wap { window, .. } => match loaded {
            None => Err(BtError::InvalidParam(String::from_str("deal_price 为时段价时需要 wap 时段数据，请经 BTData::load_wap / BtParams.wap 提供"))),
            Some(w) => if w == window {
                Ok(true)
            } else {
                Err(BtError::InvalidParam(String::from_str("wap 数据时段与 deal_price 的时段不一致，请按对应时段 load_wap")))
            },
        },
        _ => Ok(false),
    }
}

} // verus!

//! Data-transfer records for the instrument resource, with their validation
//! rules, and the one business rule of instrument creation: an exchange and
//! symbol pair must be unique.
use vstd::prelude::*;
use vstd::string::StrSliceExecFns;
use crate::error::AppError;

verus! {

/// A request to create an instrument.
#[derive(Debug)]
pub struct CreateInstrumentRequest {
    pub exchange: String,
    pub symbol: String,
    pub asset_type: String,
    pub name: String,
}

impl CreateInstrumentRequest {
    /// Field length rules: exchange 1..=50, symbol 1..=20, asset type
    /// 1..=20, name 1..=100 characters.
    pub open spec fn valid(self) -> bool {
        &&& 1 <= self.exchange@.len() <= 50
        &&& 1 <= self.symbol@.len() <= 20
        &&& 1 <= self.asset_type@.len() <= 20
        &&& 1 <= self.name@.len() <= 100
    }

    /// Checks this request against its rules.
    pub fn validate(&self) -> (r: bool)
        ensures
            r == self.valid(),
    {
        let e = self.exchange.as_str().unicode_len();
        let s = self.symbol.as_str().unicode_len();
        let a = self.asset_type.as_str().unicode_len();
        let n = self.name.as_str().unicode_len();
        1 <= e && e <= 50 && 1 <= s && s <= 20 && 1 <= a && a <= 20 && 1 <= n && n <= 100
    }
}

/// A request to update an instrument; absent fields are left unchanged.
#[derive(Debug)]
pub struct UpdateInstrumentRequest {
    pub id: i32,
    pub exchange: Option<String>,
    pub symbol: Option<String>,
    pub asset_type: Option<String>,
    pub name: Option<String>,
}

impl UpdateInstrumentRequest {
    /// Each present field obeys the same length rule as on creation.
    pub open spec fn valid(self) -> bool {
        &&& match self.exchange {
            Some(v) => 1 <= v@.len() <= 50,
            None => true,
        }
        &&& match self.symbol {
            Some(v) => 1 <= v@.len() <= 20,
            None => true,
        }
        &&& match self.asset_type {
            Some(v) => 1 <= v@.len() <= 20,
            None => true,
        }
        &&& match self.name {
            Some(v) => 1 <= v@.len() <= 100,
            None => true,
        }
    }

    /// Checks this request against its rules.
    pub fn validate(&self) -> (r: bool)
        ensures
            r == self.valid(),
    {
        let e_ok = match &self.exchange {
            Some(v) => {
                let n = v.as_str().unicode_len();
                1 <= n && n <= 50
            }
            None => true,
        };
        let s_ok = match &self.symbol {
            Some(v) => {
                let n = v.as_str().unicode_len();
                1 <= n && n <= 20
            }
            None => true,
        };
        let a_ok = match &self.asset_type {
            Some(v) => {
                let n = v.as_str().unicode_len();
                1 <= n && n <= 20
            }
            None => true,
        };
        let n_ok = match &self.name {
            Some(v) => {
                let n = v.as_str().unicode_len();
                1 <= n && n <= 100
            }
            None => true,
        };
        e_ok && s_ok && a_ok && n_ok
    }
}

/// An instrument as returned to clients.
#[derive(Debug)]
pub struct InstrumentResponse {
    pub id: i32,
    pub exchange: String,
    pub symbol: String,
    pub asset_type: String,
    pub name: String,
}

/// Filters for instrument queries; absent fields do not filter.
#[derive(Debug)]
pub struct InstrumentFilter {
    pub exchange: Option<String>,
    pub symbol: Option<String>,
    pub asset_type: Option<String>,
}

/// The creation business rule: when an instrument with the same exchange and
/// symbol already exists, creation is refused with a conflict naming them;
/// otherwise it may proceed.
pub fn check_create_conflict(already_exists: bool, exchange: &str, symbol: &str) -> (r: Result<
    (),
    AppError,
>)
    ensures
        (r is Ok) == !already_exists,
        already_exists ==> ((r->Err_0) matches AppError::Conflict { resource, identifier }
            && resource@ == exchange@ && identifier@ == symbol@),
{
    if already_exists {
        Err(
            AppError::Conflict {
                resource: exchange.to_owned(),
                identifier: symbol.to_owned(),
            },
        )
    } else {
        Ok(())
    }
}

} // verus!

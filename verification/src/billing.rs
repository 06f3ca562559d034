//! The billing model of the server: who pays through which platform, and
//! how much storage that buys.
use vstd::prelude::*;

use crate::text::{parse_u64, parse_u64_spec};

verus! {

/// The storage of an account that no subscription pays for, in bytes.
pub const FREE_TIER_USAGE_SIZE: u64 = 1_000_000;

/// The storage of an account with a paid subscription, in bytes.
pub const PREMIUM_TIER_USAGE_SIZE: u64 = 30_000_000_000;

/// Milliseconds since the Unix epoch.
pub type UnixTimeMillis = u64;

/// The state of a Google Play subscription.
#[derive(Clone, Copy, Debug, PartialEq, Eq, Structural)]
pub enum GooglePlayAccountState {
    Active,
    Canceled,
    GracePeriod,
    OnHold,
}

#[derive(Clone, Debug)]
pub struct GooglePlayUserInfo {
    pub purchase_token: String,
    pub subscription_product_id: String,
    pub subscription_offer_id: String,
    pub expiration_time: UnixTimeMillis,
    pub account_state: GooglePlayAccountState,
}

#[derive(Clone, Debug)]
pub struct StripeUserInfo {
    pub customer_id: String,
    /// The customer's UUID, as its 128-bit value.
    pub customer_name: u128,
    pub price_id: String,
    pub payment_method_id: String,
    pub last_4: String,
    pub subscription_id: String,
    pub expiration_time: UnixTimeMillis,
}

/// Where a subscription is paid.
#[derive(Clone, Debug)]
pub enum BillingPlatform {
    Stripe(StripeUserInfo),
    GooglePlay(GooglePlayUserInfo),
}

#[derive(Clone, Debug)]
pub struct SubscriptionProfile {
    pub billing_platform: Option<BillingPlatform>,
    pub last_in_payment_flow: u64,
}

impl Default for SubscriptionProfile {
    fn default() -> (r: Self)
        ensures
            r.billing_platform is None,
            r.last_in_payment_flow == 0,
    {
        SubscriptionProfile { billing_platform: None, last_in_payment_flow: 0 }
    }
}

/// The storage that a billing platform buys: premium for a subscription
/// unless Google Play holds it on hold, free without one.
pub open spec fn data_cap_of(platform: Option<BillingPlatform>) -> u64 {
    match platform {
        Some(BillingPlatform::Stripe(_)) => PREMIUM_TIER_USAGE_SIZE,
        Some(BillingPlatform::GooglePlay(info)) => if info.account_state
            == GooglePlayAccountState::OnHold {
            FREE_TIER_USAGE_SIZE
        } else {
            PREMIUM_TIER_USAGE_SIZE
        },
        None => FREE_TIER_USAGE_SIZE,
    }
}

impl SubscriptionProfile {
    /// The storage that this account may use, in bytes.
    pub fn data_cap(&self) -> (r: u64)
        ensures
            r == data_cap_of(self.billing_platform),
            self.billing_platform is None ==> r == FREE_TIER_USAGE_SIZE,
            self.billing_platform matches Some(BillingPlatform::Stripe(_)) ==> r
                == PREMIUM_TIER_USAGE_SIZE,
            self.billing_platform matches Some(BillingPlatform::GooglePlay(info)) ==> (
            info.account_state != GooglePlayAccountState::OnHold ==> r == PREMIUM_TIER_USAGE_SIZE),
            self.billing_platform matches Some(BillingPlatform::GooglePlay(info)) ==> (
            info.account_state == GooglePlayAccountState::OnHold ==> r == FREE_TIER_USAGE_SIZE),
    {
        match &self.billing_platform {
            Some(platform) => match platform {
                BillingPlatform::Stripe(_) => PREMIUM_TIER_USAGE_SIZE,
                BillingPlatform::GooglePlay(info) => {
                    if info.account_state == GooglePlayAccountState::OnHold {
                        FREE_TIER_USAGE_SIZE
                    } else {
                        PREMIUM_TIER_USAGE_SIZE
                    }
                },
            },
            None => FREE_TIER_USAGE_SIZE,
        }
    }
}

/// The Google Play settings of the server.
#[derive(Clone, Debug)]
pub struct GoogleBillingConfig {
    pub premium_subscription_product_id: String,
    pub premium_subscription_offer_id: String,
}

#[derive(Clone, Debug)]
pub struct BillingConfig {
    pub google: GoogleBillingConfig,
}

/// The settings of the server that billing reads.
#[derive(Clone, Debug)]
pub struct Config {
    pub billing: BillingConfig,
}

/// What Google Play reports of a subscription purchase that billing reads:
/// the expiry time in milliseconds, as decimal text.
#[derive(Clone, Debug)]
pub struct SubscriptionPurchase {
    pub expiry_time_millis: Option<String>,
}

/// Why a Google Play subscription could not be recorded.
#[derive(Clone, Copy, Debug, PartialEq, Eq, Structural)]
pub enum PlaySubscriptionError {
    /// The purchase carries no expiry time.
    MissingExpirationTime,
    /// The expiry time is not a number of milliseconds.
    InvalidExpirationTime,
}

impl BillingPlatform {
    /// Records a new Google Play subscription, in good standing, that ends
    /// at the purchase's expiry time.
    pub fn new_play_sub(
        config: &Config,
        purchase_token: &str,
        expiry_information: SubscriptionPurchase,
    ) -> (r: Result<Self, PlaySubscriptionError>)
        ensures
            r matches Err(e) ==> (e is MissingExpirationTime
                <==> expiry_information.expiry_time_millis is None),
            r is Ok <==> (expiry_information.expiry_time_millis matches Some(t) && parse_u64_spec(
                t@,
            ) is Some),
            r matches Ok(p) ==> (p matches BillingPlatform::GooglePlay(info) && info.purchase_token@
                == purchase_token@ && info.subscription_product_id@
                == config.billing.google.premium_subscription_product_id@
                && info.subscription_offer_id@
                == config.billing.google.premium_subscription_offer_id@
                && Some(info.expiration_time) == parse_u64_spec(
                expiry_information.expiry_time_millis->Some_0@,
            ) && info.account_state == GooglePlayAccountState::Active),
            r matches Ok(p) ==> data_cap_of(Some(p)) == PREMIUM_TIER_USAGE_SIZE,
    {
        let expiration_time = match &expiry_information.expiry_time_millis {
            Some(t) => match parse_u64(t.as_str()) {
                Some(v) => v,
                None => {
                    return Err(PlaySubscriptionError::InvalidExpirationTime);
                },
            },
            None => {
                return Err(PlaySubscriptionError::MissingExpirationTime);
            },
        };
        Ok(
            BillingPlatform::GooglePlay(
                GooglePlayUserInfo {
                    purchase_token: purchase_token.to_owned(),
                    subscription_product_id: config.billing.google.premium_subscription_product_id.clone(),
                    subscription_offer_id: config.billing.google.premium_subscription_offer_id.clone(),
                    expiration_time,
                    account_state: GooglePlayAccountState::Active,
                },
            ),
        )
    }
}

} // verus!

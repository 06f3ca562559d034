use lockbook::billing::{
    BillingConfig, BillingPlatform, Config, GoogleBillingConfig, GooglePlayAccountState,
    GooglePlayUserInfo, PlaySubscriptionError, StripeUserInfo, SubscriptionProfile,
    SubscriptionPurchase, FREE_TIER_USAGE_SIZE, PREMIUM_TIER_USAGE_SIZE,
};
use lockbook::text::parse_u64;

fn config() -> Config {
    Config {
        billing: BillingConfig {
            google: GoogleBillingConfig {
                premium_subscription_product_id: "premium".to_string(),
                premium_subscription_offer_id: "monthly".to_string(),
            },
        },
    }
}

fn play(state: GooglePlayAccountState) -> BillingPlatform {
    BillingPlatform::GooglePlay(GooglePlayUserInfo {
        purchase_token: "t".to_string(),
        subscription_product_id: "p".to_string(),
        subscription_offer_id: "o".to_string(),
        expiration_time: 1,
        account_state: state,
    })
}

#[test]
fn data_caps() {
    assert_eq!(SubscriptionProfile::default().data_cap(), FREE_TIER_USAGE_SIZE);
    let stripe = BillingPlatform::Stripe(StripeUserInfo {
        customer_id: "c".to_string(),
        customer_name: 7,
        price_id: "p".to_string(),
        payment_method_id: "m".to_string(),
        last_4: "4242".to_string(),
        subscription_id: "s".to_string(),
        expiration_time: 5,
    });
    let p = SubscriptionProfile { billing_platform: Some(stripe), last_in_payment_flow: 0 };
    assert_eq!(p.data_cap(), PREMIUM_TIER_USAGE_SIZE);
    let p = SubscriptionProfile { billing_platform: Some(play(GooglePlayAccountState::OnHold)), last_in_payment_flow: 0 };
    assert_eq!(p.data_cap(), FREE_TIER_USAGE_SIZE);
    let p = SubscriptionProfile { billing_platform: Some(play(GooglePlayAccountState::GracePeriod)), last_in_payment_flow: 0 };
    assert_eq!(p.data_cap(), PREMIUM_TIER_USAGE_SIZE);
}

#[test]
fn new_play_subscriptions() {
    let sub = BillingPlatform::new_play_sub(
        &config(),
        "token",
        SubscriptionPurchase { expiry_time_millis: Some("1700000000000".to_string()) },
    )
    .unwrap();
    match sub {
        BillingPlatform::GooglePlay(info) => {
            assert_eq!(info.purchase_token, "token");
            assert_eq!(info.subscription_product_id, "premium");
            assert_eq!(info.subscription_offer_id, "monthly");
            assert_eq!(info.expiration_time, 1700000000000);
            assert_eq!(info.account_state, GooglePlayAccountState::Active);
        }
        _ => panic!("expected a Google Play subscription"),
    }
    assert!(matches!(
        BillingPlatform::new_play_sub(&config(), "t", SubscriptionPurchase { expiry_time_millis: None }),
        Err(PlaySubscriptionError::MissingExpirationTime)
    ));
    assert!(matches!(
        BillingPlatform::new_play_sub(
            &config(),
            "t",
            SubscriptionPurchase { expiry_time_millis: Some("12x".to_string()) }
        ),
        Err(PlaySubscriptionError::InvalidExpirationTime)
    ));
}

#[test]
fn parse_u64_like_std() {
    for s in ["0", "+7", "18446744073709551615", "18446744073709551616", "", "+", "-1", " 1", "12a"] {
        assert_eq!(parse_u64(s), s.parse::<u64>().ok(), "{}", s);
    }
}

#[test]
fn strip_whitespace_removes_all_whitespace() {
    assert_eq!(lockbook::text::strip_whitespace(" user name/a b.md \n"), "username/ab.md");
    assert_eq!(lockbook::text::strip_whitespace("\u{a0}x\u{3000}"), "x");
    assert_eq!(lockbook::text::trim_str("  x y \t"), "x y");
}

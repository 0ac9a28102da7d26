use econwar::decimal::{Comparison, Decimal};
use econwar::commands::CommandResult;
use econwar::models::{Company, Player, PlayerPublic, Timestamp};

fn dec(n: i128) -> Decimal {
    Decimal::new(n, 0)
}

#[test]
fn arithmetic_goes_through_the_decimal_library() {
    assert_eq!(Decimal::new(15, 1).add(&Decimal::new(25, 2)), Decimal::new(175, 2));
    assert_eq!(dec(10).sub(&Decimal::new(1, 1)), Decimal::new(99, 1));
    assert_eq!(Decimal::new(15, 1).mul(&dec(4)), dec(6));
    assert_eq!(dec(500).div(&dec(400)), Decimal::new(125, 2));
    assert_eq!(dec(1).div(&dec(3)).to_text(), "0.3333333333333333333333333333");
    assert_eq!(dec(0).add(&Decimal::new(5, 3)).scale, 3);
}

#[test]
fn comparison_is_by_value() {
    assert!(matches!(Decimal::new(10, 1).compare(&dec(1)), Comparison::Equal));
    assert!(matches!(dec(2).compare(&dec(3)), Comparison::Less));
    assert!(Decimal::new(-5, 0).lt(&dec(0)));
    assert!(dec(3).le(&dec(3)));
    assert_eq!(dec(3).min(&Decimal::new(30, 1)).scale, 0);
    assert_eq!(dec(4).min(&dec(2)), dec(2));
    assert_eq!(Decimal::new(100, 2), dec(1));
}

#[test]
fn decimals_print_like_the_library() {
    assert_eq!(Decimal::new(12345, 2).to_text(), "123.45");
    assert_eq!(Decimal::new(-5, 1).to_text(), "-0.5");
    assert_eq!(Decimal::new(100, 2).to_text(), "1.00");
    assert_eq!(Decimal::new(0, 0).to_text(), "0");
    assert_eq!(Decimal::new(0, 2).to_text(), "0.00");
    assert_eq!(Decimal::new(-5, 3).to_text(), "-0.005");
    assert_eq!(Decimal::new(-120, 0).to_text(), "-120");
}

#[test]
fn wages_are_100_per_worker() {
    let c = Company {
        id: 1,
        owner_id: 2,
        name: "C".into(),
        treasury: dec(0),
        workers: 7,
        worker_capacity: 50,
        factories: 1,
        tech_level: 0,
        created_at: Timestamp { secs: 0, nanos: 0 },
    };
    assert_eq!(c.daily_wage_cost(), dec(700));
    let mut c2 = c.clone();
    c2.factories = 3;
    c2.recalculate_capacity();
    assert_eq!(c2.worker_capacity, 150);
}

#[test]
fn public_view_hides_the_hash() {
    let p = Player {
        id: 5,
        username: "bob".into(),
        password_hash: "secret".into(),
        balance: dec(10),
        created_at: Timestamp { secs: 0, nanos: 0 },
        last_login: Timestamp { secs: 1, nanos: 0 },
        is_online: true,
    };
    let v = PlayerPublic::from_player(&p);
    assert_eq!(v.id, 5);
    assert_eq!(v.username, "bob");
    assert_eq!(v.balance, dec(10));
    assert!(v.is_online);
}

#[test]
fn command_results() {
    let ok = CommandResult::ok("fine".to_string(), None);
    assert!(ok.success);
    assert_eq!(ok.message, "fine");
    let err = CommandResult::err("bad".to_string());
    assert!(!err.success);
    assert!(err.data.is_none());
}

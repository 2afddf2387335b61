use splitter::distribution::{distribute, Distribution, Transfer};
use splitter::error::Error;
use splitter::event::Event;
use splitter::registry::ShareRegistry;

fn registry_of(weights: &[(u64, u32)]) -> ShareRegistry {
    let mut registry = ShareRegistry::new();
    for (account, weight) in weights {
        registry.set_weight(*account, *weight);
    }
    registry
}

fn pay(recipient: u64, amount: u64) -> Transfer {
    Transfer { recipient, amount }
}

fn paid(plan: &Distribution) -> u128 {
    plan.transfers.iter().map(|t| t.amount as u128).sum()
}

#[test]
fn equal_weights_split_evenly() {
    let registry = registry_of(&[(1, 1), (2, 1)]);
    let plan = distribute(&registry, 9, 100).unwrap();
    assert_eq!(plan.sender, 9);
    assert_eq!(plan.amount, 100);
    assert_eq!(plan.transfers, vec![pay(1, 50), pay(2, 50)]);
    assert_eq!(plan.remainder, 0);
}

#[test]
fn shares_are_rounded_down_and_the_rest_is_the_remainder() {
    let registry = registry_of(&[(1, 1), (2, 2)]);
    let plan = distribute(&registry, 9, 100).unwrap();
    assert_eq!(plan.transfers, vec![pay(1, 33), pay(2, 66)]);
    assert_eq!(plan.remainder, 1);
    assert_eq!(paid(&plan) + plan.remainder as u128, 100);
}

#[test]
fn three_equal_weights_leave_one_unit() {
    let registry = registry_of(&[(3, 1), (1, 1), (2, 1)]);
    let plan = distribute(&registry, 7, 100).unwrap();
    assert_eq!(plan.transfers, vec![pay(1, 33), pay(2, 33), pay(3, 33)]);
    assert_eq!(plan.remainder, 1);
}

#[test]
fn zero_weight_recipient_is_listed_with_zero() {
    let registry = registry_of(&[(1, 3), (2, 0), (3, 5)]);
    let plan = distribute(&registry, 7, 17).unwrap();
    assert_eq!(plan.transfers, vec![pay(1, 6), pay(2, 0), pay(3, 10)]);
    assert_eq!(plan.remainder, 1);
}

#[test]
fn payments_follow_ascending_accounts_whatever_the_order_of_writes() {
    let registry = registry_of(&[(50, 1), (10, 1), (40, 1), (20, 1), (30, 1)]);
    let plan = distribute(&registry, 1, 10).unwrap();
    let recipients: Vec<u64> = plan.transfers.iter().map(|t| t.recipient).collect();
    assert_eq!(recipients, vec![10, 20, 30, 40, 50]);
    assert_eq!(plan.remainder, 0);
}

#[test]
fn sender_may_be_a_recipient() {
    let registry = registry_of(&[(1, 1), (2, 3)]);
    let plan = distribute(&registry, 1, 8).unwrap();
    assert_eq!(plan.sender, 1);
    assert_eq!(plan.transfers, vec![pay(1, 2), pay(2, 6)]);
    assert_eq!(plan.remainder, 0);
}

#[test]
fn small_deposit_may_pay_nobody() {
    let registry = registry_of(&[(1, 1), (2, 1), (3, 1)]);
    let plan = distribute(&registry, 9, 2).unwrap();
    assert_eq!(plan.transfers, vec![pay(1, 0), pay(2, 0), pay(3, 0)]);
    assert_eq!(plan.remainder, 2);
}

#[test]
fn zero_deposit_pays_zero_to_everyone() {
    let registry = registry_of(&[(1, 4), (2, 0), (3, 9)]);
    let plan = distribute(&registry, 9, 0).unwrap();
    assert_eq!(plan.transfers, vec![pay(1, 0), pay(2, 0), pay(3, 0)]);
    assert_eq!(plan.remainder, 0);
    assert_eq!(
        plan.events(),
        vec![
            Event::FundsSent(1, 0),
            Event::FundsSent(2, 0),
            Event::FundsSent(3, 0),
            Event::FundsReceived(9, 0),
        ]
    );
}

#[test]
fn empty_registry_is_refused() {
    let registry = ShareRegistry::new();
    assert_eq!(distribute(&registry, 9, 100), Err(Error::NoRecipientsConfigured));
    assert_eq!(distribute(&registry, 9, 0), Err(Error::NoRecipientsConfigured));
    assert_eq!(distribute(&registry, 9, u64::MAX), Err(Error::NoRecipientsConfigured));
}

#[test]
fn all_zero_weights_are_refused() {
    let registry = registry_of(&[(1, 0), (2, 0)]);
    assert_eq!(distribute(&registry, 9, 100), Err(Error::NoRecipientsConfigured));
    assert_eq!(distribute(&registry, 9, 0), Err(Error::NoRecipientsConfigured));
}

#[test]
fn total_weight_overflow_is_refused_even_for_a_zero_deposit() {
    let registry = registry_of(&[(1, u32::MAX), (2, 1)]);
    assert_eq!(distribute(&registry, 9, 0), Err(Error::ArithmeticOverflow));
    assert_eq!(distribute(&registry, 9, 100), Err(Error::ArithmeticOverflow));
}

#[test]
fn product_overflow_is_refused() {
    let registry = registry_of(&[(1, 2)]);
    assert_eq!(distribute(&registry, 9, u64::MAX), Err(Error::ArithmeticOverflow));
    let registry = registry_of(&[(1, u32::MAX)]);
    assert_eq!(distribute(&registry, 9, 1 << 33), Err(Error::ArithmeticOverflow));
}

#[test]
fn product_overflow_at_a_later_recipient_refuses_the_whole_deposit() {
    let registry = registry_of(&[(1, 1), (2, 4)]);
    assert_eq!(distribute(&registry, 9, u64::MAX / 2), Err(Error::ArithmeticOverflow));
}

#[test]
fn product_at_the_edge_of_the_range_is_accepted() {
    // u64::MAX is three times 6148914691236517205.
    let third = 6148914691236517205u64;
    let registry = registry_of(&[(1, 3)]);
    let plan = distribute(&registry, 9, third).unwrap();
    assert_eq!(plan.transfers, vec![pay(1, third)]);
    assert_eq!(plan.remainder, 0);
    assert_eq!(distribute(&registry, 9, third + 1), Err(Error::ArithmeticOverflow));
}

#[test]
fn largest_deposit_with_unit_weights() {
    let registry = registry_of(&[(1, 1)]);
    let plan = distribute(&registry, 9, u64::MAX).unwrap();
    assert_eq!(plan.transfers, vec![pay(1, u64::MAX)]);
    assert_eq!(plan.remainder, 0);

    let registry = registry_of(&[(1, 1), (2, 1)]);
    let plan = distribute(&registry, 9, u64::MAX).unwrap();
    assert_eq!(
        plan.transfers,
        vec![pay(1, 9223372036854775807), pay(2, 9223372036854775807)]
    );
    assert_eq!(plan.remainder, 1);
}

#[test]
fn largest_total_weight_is_accepted() {
    let registry = registry_of(&[(1, u32::MAX - 1), (2, 1)]);
    let plan = distribute(&registry, 9, 4294967295).unwrap();
    assert_eq!(plan.transfers, vec![pay(1, 4294967294), pay(2, 1)]);
    assert_eq!(plan.remainder, 0);
}

#[test]
fn every_distribution_accounts_for_the_whole_deposit() {
    let registries = [
        registry_of(&[(1, 1)]),
        registry_of(&[(1, 1), (2, 2)]),
        registry_of(&[(1, 7), (2, 11), (3, 13)]),
        registry_of(&[(1, 0), (2, 5), (3, 0), (4, 1)]),
        registry_of(&[(10, 1000), (20, 1), (30, 999), (40, 3), (50, 17)]),
    ];
    let amounts = [0u64, 1, 2, 3, 10, 99, 100, 101, 1000, 123456789, 1 << 40];
    for registry in registries.iter() {
        for amount in amounts {
            let plan = distribute(registry, 9, amount).unwrap();
            assert_eq!(paid(&plan) + plan.remainder as u128, amount as u128);
            assert!((plan.remainder as usize) < plan.transfers.len());
            assert_eq!(plan.transfers.len(), registry.len());
            let total = registry.total_weight().unwrap() as u128;
            for (entry, transfer) in registry.entries().iter().zip(plan.transfers.iter()) {
                assert_eq!(transfer.recipient, entry.account);
                assert_eq!(
                    transfer.amount as u128,
                    amount as u128 * entry.weight as u128 / total
                );
            }
        }
    }
}

#[test]
fn events_list_every_payment_and_then_the_deposit() {
    let registry = registry_of(&[(1, 1), (2, 1)]);
    let plan = distribute(&registry, 9, 100).unwrap();
    assert_eq!(
        plan.events(),
        vec![Event::FundsSent(1, 50), Event::FundsSent(2, 50), Event::FundsReceived(9, 100)]
    );
}

#[test]
fn events_of_a_plan_without_payments() {
    let plan = Distribution { sender: 4, amount: 0, transfers: vec![], remainder: 0 };
    assert_eq!(plan.events(), vec![Event::FundsReceived(4, 0)]);
}

#[test]
fn distribution_clone_is_equal() {
    let registry = registry_of(&[(1, 1), (2, 2)]);
    let plan = distribute(&registry, 9, 100).unwrap();
    assert_eq!(plan.clone(), plan);
}

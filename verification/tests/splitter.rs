use splitter::distribution::Transfer;
use splitter::error::Error;
use splitter::event::Event;
use splitter::origin::Origin;
use splitter::pairwise::PairwiseShareTable;
use splitter::registry::{Recipient, ShareRegistry};
use splitter::splitter::Splitter;

fn configured(weights: &[(u64, u32)]) -> Splitter {
    let mut splitter = Splitter::new();
    for (account, weight) in weights {
        assert_eq!(
            splitter.update_recipient(Origin::Root, *account, *weight),
            Ok(Event::RecipientUpdated(*account))
        );
    }
    splitter
}

#[test]
fn new_splitter_has_empty_tables() {
    let splitter = Splitter::new();
    assert!(splitter.recipients().is_empty());
    assert_eq!(splitter.shares().len(), 0);
}

#[test]
fn receive_funds_with_empty_registry_fails() {
    let splitter = Splitter::new();
    assert_eq!(
        splitter.receive_funds(Origin::Signed(9), 100),
        Err(Error::NoRecipientsConfigured)
    );
}

#[test]
fn receive_funds_splits_evenly_between_equal_weights() {
    let splitter = configured(&[(1, 1), (2, 1)]);
    let plan = splitter.receive_funds(Origin::Signed(9), 100).unwrap();
    assert_eq!(plan.sender, 9);
    assert_eq!(plan.amount, 100);
    assert_eq!(
        plan.transfers,
        vec![Transfer { recipient: 1, amount: 50 }, Transfer { recipient: 2, amount: 50 }]
    );
    assert_eq!(plan.remainder, 0);
    assert_eq!(
        plan.events(),
        vec![Event::FundsSent(1, 50), Event::FundsSent(2, 50), Event::FundsReceived(9, 100)]
    );
}

#[test]
fn receive_funds_floors_and_keeps_the_remainder_with_the_sender() {
    let splitter = configured(&[(1, 1), (2, 2)]);
    let plan = splitter.receive_funds(Origin::Signed(9), 100).unwrap();
    assert_eq!(
        plan.transfers,
        vec![Transfer { recipient: 1, amount: 33 }, Transfer { recipient: 2, amount: 66 }]
    );
    assert_eq!(plan.remainder, 1);
    let paid: u64 = plan.transfers.iter().map(|t| t.amount).sum();
    assert_eq!(paid + plan.remainder, 100);
}

#[test]
fn receive_funds_requires_a_signed_origin() {
    let splitter = configured(&[(1, 1), (2, 1)]);
    assert_eq!(splitter.receive_funds(Origin::Root, 100), Err(Error::BadOrigin));
    let empty = Splitter::new();
    assert_eq!(empty.receive_funds(Origin::Root, 100), Err(Error::BadOrigin));
}

#[test]
fn receive_funds_of_zero_succeeds() {
    let splitter = configured(&[(1, 1), (2, 2)]);
    let plan = splitter.receive_funds(Origin::Signed(9), 0).unwrap();
    assert_eq!(
        plan.transfers,
        vec![Transfer { recipient: 1, amount: 0 }, Transfer { recipient: 2, amount: 0 }]
    );
    assert_eq!(plan.remainder, 0);
    assert_eq!(
        plan.events(),
        vec![Event::FundsSent(1, 0), Event::FundsSent(2, 0), Event::FundsReceived(9, 0)]
    );
}

#[test]
fn receive_funds_reports_product_overflow() {
    let splitter = configured(&[(1, 1), (2, 2)]);
    assert_eq!(
        splitter.receive_funds(Origin::Signed(9), u64::MAX),
        Err(Error::ArithmeticOverflow)
    );
}

#[test]
fn receive_funds_reports_total_weight_overflow() {
    let splitter = configured(&[(1, u32::MAX), (2, 1)]);
    assert_eq!(splitter.receive_funds(Origin::Signed(9), 10), Err(Error::ArithmeticOverflow));
}

#[test]
fn receive_funds_with_only_zero_weights_fails() {
    let splitter = configured(&[(1, 0)]);
    assert_eq!(
        splitter.receive_funds(Origin::Signed(9), 0),
        Err(Error::NoRecipientsConfigured)
    );
}

#[test]
fn receive_funds_does_not_change_the_tables() {
    let splitter = configured(&[(1, 1), (2, 2)]);
    let before = splitter.clone();
    let _ = splitter.receive_funds(Origin::Signed(9), 100);
    let _ = splitter.receive_funds(Origin::Signed(9), u64::MAX);
    let _ = splitter.receive_funds(Origin::Root, 1);
    assert_eq!(splitter, before);
}

#[test]
fn update_recipient_by_non_root_fails_and_changes_nothing() {
    let mut splitter = configured(&[(1, 1), (2, 2)]);
    splitter.update_share(Origin::Root, 1, 2, 7).unwrap();
    let before = splitter.clone();
    assert_eq!(splitter.update_recipient(Origin::Signed(1), 1, 5), Err(Error::BadOrigin));
    assert_eq!(splitter.update_recipient(Origin::Signed(3), 3, 5), Err(Error::BadOrigin));
    assert_eq!(splitter, before);
    assert_eq!(splitter.recipients().get_weight(1), 1);
    assert!(!splitter.recipients().contains(3));
}

#[test]
fn update_share_by_non_root_fails_and_changes_nothing() {
    let mut splitter = configured(&[(1, 1), (2, 2)]);
    splitter.update_share(Origin::Root, 1, 2, 7).unwrap();
    let before = splitter.clone();
    assert_eq!(splitter.update_share(Origin::Signed(1), 1, 2, 9), Err(Error::BadOrigin));
    assert_eq!(splitter.update_share(Origin::Signed(1), 5, 6, 9), Err(Error::BadOrigin));
    assert_eq!(splitter, before);
    assert_eq!(splitter.shares().get_share(1, 2), 7);
    assert_eq!(splitter.shares().get_share(5, 6), 0);
}

#[test]
fn update_recipient_twice_with_the_same_value() {
    let mut splitter = Splitter::new();
    assert_eq!(splitter.update_recipient(Origin::Root, 1, 5), Ok(Event::RecipientUpdated(1)));
    let once = splitter.clone();
    assert_eq!(splitter.update_recipient(Origin::Root, 1, 5), Ok(Event::RecipientUpdated(1)));
    assert_eq!(splitter, once);
    assert_eq!(splitter.recipients().entries(), &vec![Recipient { account: 1, weight: 5 }]);
}

#[test]
fn update_recipient_writes_the_registry_only() {
    let mut splitter = Splitter::new();
    splitter.update_share(Origin::Root, 1, 2, 7).unwrap();
    splitter.update_recipient(Origin::Root, 4, 6).unwrap();
    assert_eq!(splitter.recipients().get_weight(4), 6);
    assert_eq!(splitter.shares().get_share(1, 2), 7);
    assert_eq!(splitter.shares().len(), 1);
}

#[test]
fn update_share_writes_the_table_only() {
    let mut splitter = configured(&[(1, 1)]);
    assert_eq!(splitter.update_share(Origin::Root, 1, 2, 7), Ok(Event::ShareUpdated(1, 2)));
    assert_eq!(splitter.shares().get_share(1, 2), 7);
    assert_eq!(splitter.shares().get_share(2, 1), 0);
    assert_eq!(splitter.recipients().entries(), &vec![Recipient { account: 1, weight: 1 }]);
}

#[test]
fn pairwise_weights_do_not_affect_a_distribution() {
    let mut splitter = configured(&[(1, 1), (2, 2)]);
    let before = splitter.receive_funds(Origin::Signed(9), 100).unwrap();
    splitter.update_share(Origin::Root, 1, 2, 1000).unwrap();
    splitter.update_share(Origin::Root, 2, 1, 3).unwrap();
    let after = splitter.receive_funds(Origin::Signed(9), 100).unwrap();
    assert_eq!(before, after);
}

#[test]
fn later_weights_apply_to_later_deposits() {
    let mut splitter = configured(&[(1, 1), (2, 1)]);
    splitter.update_recipient(Origin::Root, 2, 3).unwrap();
    let plan = splitter.receive_funds(Origin::Signed(9), 100).unwrap();
    assert_eq!(
        plan.transfers,
        vec![Transfer { recipient: 1, amount: 25 }, Transfer { recipient: 2, amount: 75 }]
    );
}

#[test]
fn from_parts_takes_tables_as_they_are() {
    let mut registry = ShareRegistry::new();
    registry.set_weight(2, 1);
    registry.set_weight(1, 1);
    let mut table = PairwiseShareTable::new();
    table.set_pair_share(1, 2, 4);
    let splitter = Splitter::from_parts(registry.clone(), table.clone());
    assert_eq!(splitter.recipients(), &registry);
    assert_eq!(splitter.shares(), &table);
    let plan = splitter.receive_funds(Origin::Signed(2), 3).unwrap();
    assert_eq!(
        plan.transfers,
        vec![Transfer { recipient: 1, amount: 1 }, Transfer { recipient: 2, amount: 1 }]
    );
    assert_eq!(plan.remainder, 1);
}

use quadratic_voting::dispatch::{ensure_signed, DispatchError, Origin};
use quadratic_voting::kitties::Error;
use quadratic_voting::runtime::{run_to_block, ExtBuilder};

#[test]
fn minting_kitty() {
    let mut rt = ExtBuilder::build();
    let origin = Origin::Signed(1);
    let sender = ensure_signed(&origin).unwrap();
    assert!(rt.kitties.create_kitty(origin.clone()).is_ok());
    run_to_block(&mut rt, 10);
    assert_eq!(rt.kitties.get_kitties_owned(sender).len(), 1);
    assert_eq!(sender, 1);
}

#[test]
fn breach_max_kitties() {
    let mut rt = ExtBuilder::build();
    let origin = Origin::Signed(1);
    let sender = ensure_signed(&origin).unwrap();
    assert!(rt.kitties.create_kitty(origin.clone()).is_ok());
    run_to_block(&mut rt, 10);
    assert_eq!(
        rt.kitties.create_kitty(origin.clone()),
        Err(DispatchError::Kitties(Error::TooManyOwned))
    );
    assert_eq!(rt.kitties.get_kitties_owned(sender).len(), 1);
    assert_eq!(sender, 1);
}

#[test]
fn free_create_needs_the_root_context() {
    let mut rt = ExtBuilder::build();
    assert_eq!(
        rt.kitties.free_create_kitty(Origin::Signed(1), 2),
        Err(DispatchError::BadOrigin)
    );
    assert_eq!(rt.kitties.get_kitties_owned(2).len(), 0);
    assert!(rt.kitties.free_create_kitty(Origin::Root, 2).is_ok());
    assert_eq!(rt.kitties.get_kitties_owned(2).len(), 1);
    assert_eq!(
        rt.kitties.free_create_kitty(Origin::Root, 2),
        Err(DispatchError::Kitties(Error::TooManyOwned))
    );
}

#[test]
fn set_price_paths() {
    let mut rt = ExtBuilder::build();
    let origin = Origin::Signed(1);
    assert!(rt.kitties.create_kitty(origin.clone()).is_ok());
    let id = rt.kitties.get_kitties_owned(1)[0];
    assert_eq!(
        rt.kitties.set_price(origin.clone(), [9u8; 16], Some(100)),
        Err(DispatchError::Kitties(Error::NoSuchKitty))
    );
    assert_eq!(
        rt.kitties.set_price(Origin::Signed(2), id, Some(100)),
        Err(DispatchError::Kitties(Error::NotOwner))
    );
    assert!(rt.kitties.set_price(origin.clone(), id, Some(100)).is_ok());
    assert!(rt.kitties.set_price(origin.clone(), id, None).is_ok());
    assert_eq!(rt.kitties.get_kitties_owned(1).len(), 1);
}

#[test]
fn transfer_paths() {
    let mut rt = ExtBuilder::build();
    let origin = Origin::Signed(1);
    assert!(rt.kitties.create_kitty(origin.clone()).is_ok());
    assert!(rt.kitties.create_kitty(Origin::Signed(3)).is_ok());
    let id = rt.kitties.get_kitties_owned(1)[0];
    assert_eq!(
        rt.kitties.transfer(Origin::Signed(2), 4, id),
        Err(DispatchError::Kitties(Error::NotOwner))
    );
    assert_eq!(
        rt.kitties.transfer(origin.clone(), 4, [9u8; 16]),
        Err(DispatchError::Kitties(Error::NoSuchKitty))
    );
    // Account 3 is at the per-owner cap already.
    assert_eq!(
        rt.kitties.transfer(origin.clone(), 3, id),
        Err(DispatchError::Kitties(Error::TooManyOwned))
    );
    assert!(rt.kitties.transfer(origin.clone(), 2, id).is_ok());
    assert_eq!(rt.kitties.get_kitties_owned(1).len(), 0);
    assert_eq!(rt.kitties.get_kitties_owned(2).len(), 1);
    assert_eq!(rt.kitties.get_kitties_owned(2)[0], id);
}

#[test]
fn buy_kitty_paths() {
    let mut rt = ExtBuilder::build();
    let origin = Origin::Signed(1);
    let buyer = Origin::Signed(2);
    assert!(rt.kitties.create_kitty(origin.clone()).is_ok());
    let id = rt.kitties.get_kitties_owned(1)[0];
    assert_eq!(
        rt.kitties.buy_kitty(buyer.clone(), id, 1000),
        Err(DispatchError::Kitties(Error::NotForSale))
    );
    assert!(rt.kitties.set_price(origin.clone(), id, Some(100)).is_ok());
    assert_eq!(
        rt.kitties.buy_kitty(buyer.clone(), id, 99),
        Err(DispatchError::Kitties(Error::BidTooLow))
    );
    assert_eq!(
        rt.kitties.buy_kitty(buyer.clone(), [9u8; 16], 100),
        Err(DispatchError::Kitties(Error::NoSuchKitty))
    );
    assert!(rt.kitties.buy_kitty(buyer.clone(), id, 100).is_ok());
    assert_eq!(rt.kitties.get_kitties_owned(1).len(), 0);
    assert_eq!(rt.kitties.get_kitties_owned(2).len(), 1);
    // The item is no longer for sale after the purchase.
    assert_eq!(
        rt.kitties.buy_kitty(Origin::Signed(3), id, 1000),
        Err(DispatchError::Kitties(Error::NotForSale))
    );
}

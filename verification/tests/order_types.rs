use octopus::types::{Order, PartialOrder, Side};

#[test]
fn test_into_partial_order_keeps_fields() {
    let order = Order {
        price: 10,
        amount: 7,
        side: Side::Sell,
        signer: "maker".to_string(),
    };
    let po = order.into_partial_order(3, 7);
    assert_eq!(
        po,
        PartialOrder {
            price: 10,
            amount: 7,
            remaining: 7,
            side: Side::Sell,
            signer: "maker".to_string(),
            ordinal: 3,
        }
    );
}

#[test]
fn test_take_from_splits_position() {
    let mut pos = PartialOrder {
        price: 10,
        amount: 7,
        remaining: 7,
        side: Side::Sell,
        signer: "maker".to_string(),
        ordinal: 3,
    };
    let fill = PartialOrder::take_from(&mut pos, 5, 10);
    assert_eq!(pos.remaining, 2);
    assert_eq!(fill.amount, 5);
    assert_eq!(fill.price, 10);
    assert_eq!(fill.remaining, 2);
    assert_eq!(fill.signer, "maker".to_string());
    assert_eq!(fill.ordinal, 3);
    assert_eq!(fill.side, Side::Sell);
}

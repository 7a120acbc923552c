use fox::dydx::feed::trades_after;

#[test]
fn trades_after_a_time() {
    let message = "{\"type\":\"channel_data\",\"contents\":{\"trades\":[\
        {\"side\":\"BUY\",\"size\":\"0.1\",\"price\":\"1500.5\",\"createdAt\":\"2023-11-14T22:13:20.000Z\"},\
        {\"side\":\"SELL\",\"size\":\"0.2\",\"price\":\"1499.0\",\"createdAt\":\"2023-11-14T22:13:25.000Z\"},\
        {\"side\":\"SELL\",\"size\":\"0.2\",\"price\":\"1498.0\",\"createdAt\":\"2023-11-14T22:13:10.000Z\"}]}}";
    let trades = trades_after(message, 1700000000).unwrap();
    assert_eq!(trades, vec![("1499.0".to_string(), 1700000005)]);
    let all = trades_after(message, 0).unwrap();
    assert_eq!(all.len(), 3);
    assert_eq!(all[0], ("1500.5".to_string(), 1700000000));
    assert_eq!(all[2], ("1498.0".to_string(), 1699999990));
}

#[test]
fn messages_without_trades() {
    assert_eq!(trades_after("{\"type\":\"subscribed\"}", 0), Some(vec![]));
    assert_eq!(trades_after("not json", 0), Some(vec![]));
    assert_eq!(trades_after("{\"contents\":{\"trades\":[]}}", 0), Some(vec![]));
}

#[test]
fn trades_that_cannot_be_read() {
    assert_eq!(trades_after("{\"contents\":{\"trades\":[{\"price\":\"1\"}]}}", 0), None);
    assert_eq!(
        trades_after("{\"contents\":{\"trades\":[{\"price\":\"1\",\"createdAt\":\"yesterday\"}]}}", 0),
        None
    );
}

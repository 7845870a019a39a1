use d3cap::multicast::Multicast;

fn drain(mc: &mut Multicast<String>, id: usize) -> Vec<String> {
    let mut out = Vec::new();
    loop {
        let next = match mc.peek(id) {
            Some(m) => m.clone(),
            None => break,
        };
        out.push(next);
        mc.advance(id);
    }
    out
}

#[test]
fn late_subscriber_sees_only_later_publishes() {
    let mut mc: Multicast<String> = Multicast::new();
    let s1 = mc.push();
    mc.send("p1".to_string());
    let s2 = mc.push();
    mc.send("p2".to_string());

    assert_eq!(drain(&mut mc, s1), vec!["p1".to_string(), "p2".to_string()]);
    assert_eq!(drain(&mut mc, s2), vec!["p2".to_string()]);

    // drained subscribers have nothing pending until the next publish
    assert_eq!(mc.pending_count(s1), 0);
    mc.send("p3".to_string());
    assert_eq!(mc.pending_count(s1), 1);
    assert_eq!(mc.pending_count(s2), 1);
    assert_eq!(drain(&mut mc, s2), vec!["p3".to_string()]);
}

#[test]
fn publish_order_is_kept_per_subscriber() {
    let mut mc: Multicast<String> = Multicast::new();
    let s = mc.push();
    for i in 0..10 {
        mc.send(format!("m{}", i));
    }
    let got = drain(&mut mc, s);
    let want: Vec<String> = (0..10).map(|i| format!("m{}", i)).collect();
    assert_eq!(got, want);
}

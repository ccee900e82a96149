use srtla_send::connection::send_prefix::{validate_sent_prefix, SendPrefixFault};

#[test]
fn whole_prefix_of_full_datagrams_is_usable() {
    assert_eq!(validate_sent_prefix(&[100, 200, 300], &[100, 200, 300], 3), Ok(3));
    assert_eq!(validate_sent_prefix(&[100, 200, 0], &[100, 200, 300], 2), Ok(2));
    assert_eq!(validate_sent_prefix(&[], &[], 0), Ok(0));
}

#[test]
fn short_datagram_ends_the_prefix_at_its_index() {
    let r = validate_sent_prefix(&[100, 150, 300], &[100, 200, 300], 3);
    assert_eq!(
        r,
        Err(SendPrefixFault::Short {
            index: 1,
            sent: 150,
            expected: 200
        })
    );
    assert_eq!(r.unwrap_err().index(), 1);
}

#[test]
fn overreported_acceptance_is_refused_at_the_submitted_count() {
    let r = validate_sent_prefix(&[100, 200], &[100, 200], 5);
    assert_eq!(
        r,
        Err(SendPrefixFault::Overreported {
            accepted: 5,
            submitted: 2
        })
    );
    assert_eq!(r.unwrap_err().index(), 2);
}

#[test]
fn mismatch_past_the_accepted_count_is_not_examined() {
    assert_eq!(validate_sent_prefix(&[100, 0], &[100, 200], 1), Ok(1));
}

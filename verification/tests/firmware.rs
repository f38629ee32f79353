use waveshare_epaper::firmware::{full_refresh_due, server_base};

#[test]
fn full_refresh_every_sixtieth_cycle() {
    assert!(full_refresh_due(0));
    assert!(!full_refresh_due(1));
    assert!(!full_refresh_due(59));
    assert!(full_refresh_due(60));
    assert!(full_refresh_due(120));
    assert!(!full_refresh_due(121));
}

#[test]
fn server_base_strips_last_segment() {
    assert_eq!(server_base("http://192.168.1.5:3000/framebuffer"), "http://192.168.1.5:3000");
    assert_eq!(server_base("no-slash"), "no-slash");
    assert_eq!(server_base("http://host/"), "http://host");
    assert_eq!(server_base(""), "");
}

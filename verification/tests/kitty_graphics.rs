use helix_extensions::kitty_graphics::{write_upload, KittyGraphics};

#[test]
fn unsupported_backends_emit_nothing() {
    let mut graphics = KittyGraphics::new();
    graphics.set_available(false);
    assert!(!graphics.queue_upload(7, vec![1, 2, 3], 2, 1));
    assert!(graphics.drain().is_empty());
}

#[test]
fn uploads_place_and_delete_with_quiet_protocol_operations() {
    let mut graphics = KittyGraphics::new();
    graphics.set_available(true);
    assert!(graphics.queue_upload(42, vec![1, 2, 3], 3, 2));
    graphics.queue_delete(42);
    assert_eq!(
        graphics.drain(),
        "\u{1b}_Ga=t,f=100,i=42,q=2,m=0;AQID\u{1b}\\\u{1b}_Ga=p,U=1,i=42,c=3,r=2,q=2\u{1b}\\\u{1b}_Ga=d,d=I,i=42,q=2\u{1b}\\"
    );

    assert!(graphics.queue_upload(43, vec![1; 5000], 1, 1));
    let chunked = graphics.drain();
    assert!(chunked.contains("a=t,f=100,i=43,q=2,m=1"));
    assert!(chunked.contains("\u{1b}_Gq=2,m=0;"));
}

#[test]
fn losing_support_drops_what_was_queued() {
    let mut graphics = KittyGraphics::new();
    graphics.set_available(true);
    assert!(graphics.available());
    graphics.queue_delete_all();
    assert_eq!(graphics.drain(), "\u{1b}_Ga=d,d=A,q=2\u{1b}\\");
    graphics.queue_delete_all();
    graphics.set_available(false);
    assert!(!graphics.available());
    assert!(graphics.drain().is_empty());
}

#[test]
fn data_is_padded_and_framed() {
    assert_eq!(
        write_upload(1, "AQ==", 2, 3),
        "\u{1b}_Ga=t,f=100,i=1,q=2,m=0;AQ==\u{1b}\\\u{1b}_Ga=p,U=1,i=1,c=2,r=3,q=2\u{1b}\\"
    );
}

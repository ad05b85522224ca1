use tendabike::service::ServiceId;

#[test]
fn service_id_new_creates_uuid() {
    let id = ServiceId::new();
    let s = id.to_string();
    assert_eq!(s.len(), 36);
    assert_eq!(s.chars().filter(|c| *c == '-').count(), 4);
}

#[test]
fn service_ids_are_fresh_and_not_nil() {
    let a = ServiceId::new();
    let b = ServiceId::new();
    assert_ne!(a.0, 0);
    assert_ne!(a, b);
    assert_ne!(a.to_string(), "00000000-0000-0000-0000-000000000000");
}

#[test]
fn service_id_text_places_hyphens() {
    let id = ServiceId(0x0123_4567_89ab_cdef_0123_4567_89ab_cdef);
    assert_eq!(id.to_string(), "01234567-89ab-cdef-0123-456789abcdef");
}

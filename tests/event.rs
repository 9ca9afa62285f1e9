use calendar_assist::event::Location;

#[test]
fn placeholder_locations_are_cleared() {
    for word in ["Unknown", "unknown", "None", "none", "Not Specified", "not specified"] {
        let mut l = Location::Location(word.to_string());
        l.cleanup();
        assert_eq!(l, Location::Unspecified);
    }
}

#[test]
fn real_locations_are_kept() {
    for word in ["the office", "UNKNOWN", "Unknown cafe", ""] {
        let mut l = Location::Location(word.to_string());
        l.cleanup();
        assert_eq!(l, Location::Location(word.to_string()));
    }
    let mut none = Location::Unspecified;
    none.cleanup();
    assert_eq!(none, Location::Unspecified);
}

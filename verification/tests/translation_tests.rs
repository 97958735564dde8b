use meditui::translation::{sort_translations, translation_from_saved, validated_translation};

#[test]
fn saved_translation_is_trimmed() {
    assert_eq!(translation_from_saved(Some("  web\n")), "web");
}

#[test]
fn missing_or_blank_saved_translation_gives_kjv() {
    assert_eq!(translation_from_saved(None), "kjv");
    assert_eq!(translation_from_saved(Some(" \t\n")), "kjv");
}

#[test]
fn unavailable_translation_falls_back_to_kjv() {
    let available = vec!["asv".to_string(), "kjv".to_string()];
    assert_eq!(validated_translation("asv".to_string(), &available), "asv");
    assert_eq!(validated_translation("web".to_string(), &available), "kjv");
    assert_eq!(validated_translation("web".to_string(), &vec![]), "kjv");
}

#[test]
fn translations_are_sorted() {
    let names = vec!["web".to_string(), "asv".to_string(), "kjv".to_string(), "Bbe".to_string(), "asv".to_string()];
    assert_eq!(sort_translations(names), vec!["Bbe", "asv", "asv", "kjv", "web"]);
    assert!(sort_translations(vec![]).is_empty());
}

use spritesheet::select::is_supported_name;
use spritesheet::select::select_placed;

#[test]
fn supported_extensions() {
    assert!(is_supported_name("a.png"));
    assert!(is_supported_name("b.bmp"));
    assert!(is_supported_name("c.jpeg"));
    assert!(is_supported_name("dir.with.dots.png"));
}

#[test]
fn jpg_is_not_recognized() {
    assert!(!is_supported_name("photo.jpg"));
}

#[test]
fn extension_match_is_case_sensitive() {
    assert!(!is_supported_name("a.PNG"));
    assert!(!is_supported_name("b.Bmp"));
}

#[test]
fn unrelated_names_rejected() {
    assert!(!is_supported_name(""));
    assert!(!is_supported_name("png"));
    assert!(!is_supported_name("notes.txt"));
    assert!(!is_supported_name("pngx"));
}

#[test]
fn bare_extension_counts() {
    assert!(is_supported_name(".png"));
}

#[test]
fn select_keeps_input_order() {
    let paths = vec!["a".to_string(), "b".to_string(), "c".to_string()];
    let kept = select_placed(&paths, &vec![]);
    assert_eq!(kept, vec![0, 1, 2]);
}

#[test]
fn select_drops_exact_matches() {
    let paths = vec!["d/a.png".to_string(), "d/b.png".to_string(), "d/c.png".to_string()];
    let ignored = vec!["d/b.png".to_string()];
    let kept = select_placed(&paths, &ignored);
    assert_eq!(kept, vec![0, 2]);
}

#[test]
fn ignored_never_present_regardless_of_position() {
    let paths = vec!["x".to_string(), "y".to_string(), "z".to_string()];
    for victim in ["x", "y", "z"] {
        let kept = select_placed(&paths, &vec![victim.to_string()]);
        assert_eq!(kept.len(), 2);
        for i in kept {
            assert_ne!(paths[i], victim);
        }
    }
}

#[test]
fn ignore_match_is_exact_not_by_name() {
    let paths = vec!["d/a.png".to_string()];
    let ignored = vec!["a.png".to_string()];
    assert_eq!(select_placed(&paths, &ignored), vec![0]);
}

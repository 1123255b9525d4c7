use batcave::icons::{bgra_to_rgba, extract, ICON_BYTES};

#[test]
fn icons_swap_blue_and_red_keep_alpha() {
    let bgra = [1u8, 2, 3, 4, 5, 6, 7, 0];
    assert_eq!(bgra_to_rgba(&bgra), vec![3, 2, 1, 4, 7, 6, 5, 0]);
}

#[test]
fn icons_without_alpha_are_opaque() {
    let bgra = [1u8, 2, 3, 0, 5, 6, 7, 0];
    assert_eq!(bgra_to_rgba(&bgra), vec![3, 2, 1, 255, 7, 6, 5, 255]);
    assert!(bgra_to_rgba(&[]).is_empty());
}

#[test]
fn icons_data_url_holds_a_png() {
    let bgra = vec![0u8; ICON_BYTES];
    let url = extract(&bgra).unwrap();
    assert!(url.starts_with("data:image/png;base64,iVBORw0KGgo"));
    assert!(url.len() > "data:image/png;base64,".len() + 20);
}

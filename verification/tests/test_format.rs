#[test]
fn should_format_cnpj_with_mask() {
    assert_eq!(cnpj_util::format(""), "");
    assert_eq!(cnpj_util::format("4"), "4");
    assert_eq!(cnpj_util::format("46"), "46");
    assert_eq!(cnpj_util::format("468"), "46.8");
    assert_eq!(cnpj_util::format("4684"), "46.84");
    assert_eq!(cnpj_util::format("46843"), "46.843");
    assert_eq!(cnpj_util::format("468434"), "46.843.4");
    assert_eq!(cnpj_util::format("4684348"), "46.843.48");
    assert_eq!(cnpj_util::format("46843485"), "46.843.485");
    assert_eq!(cnpj_util::format("468434850"), "46.843.485/0");
    assert_eq!(cnpj_util::format("4684348500"), "46.843.485/00");
    assert_eq!(cnpj_util::format("46843485000"), "46.843.485/000");
    assert_eq!(cnpj_util::format("468434850001"), "46.843.485/0001");
    assert_eq!(cnpj_util::format("4684348500018"), "46.843.485/0001-8");
    assert_eq!(cnpj_util::format("46843485000186"), "46.843.485/0001-86");
}

#[test]
fn should_not_add_digits_after_the_cnpj_length() {
    assert_eq!(cnpj_util::format("468434850001860000000000"), "46.843.485/0001-86");
}

#[test]
fn should_remove_all_non_numeric_characters() {
    assert_eq!(cnpj_util::format("46.?ABC843.485/0001-86abc"), "46.843.485/0001-86");
}

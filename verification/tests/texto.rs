use gestor_memoria::texto::decimal;

#[test]
fn decimal_de_cero() {
    assert_eq!(decimal(0), "0");
}

#[test]
fn decimal_de_un_digito() {
    assert_eq!(decimal(7), "7");
}

#[test]
fn decimal_de_varios_digitos() {
    assert_eq!(decimal(907), "907");
    assert_eq!(decimal(12345), "12345");
    assert_eq!(decimal(100), "100");
}

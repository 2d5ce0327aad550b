use nuupa::habilidades::{
    empezar_de_cero, estado_del_manifest, frente_de, listar, nombre_seguro, nombre_valido_exec, validar_contenido,
    EntradaCarpeta, EstadoHabilidad, Lectura, Mapa,
};

const SKILL_OK: &str = "---\nname: find-skills\ndescription: Help discovering skills\n---\n\n# body\n";
const SKILL_OK_COMILLAS: &str = "---\nname: \"otra-skill\"\ndescription: 'Con comillas'\n---\n";

#[test]
fn nombres_seguros_y_peligrosos() {
    for bueno in ["markdownlint", "open-code-review", "a1-b2"] {
        assert!(nombre_seguro(bueno).is_ok(), "{bueno}");
    }
    for malo in ["", ".", "..", ".oculta", "a/b", "a\\b", "../escape", "a..b"] {
        assert!(nombre_seguro(malo).is_err(), "{malo}");
    }
}

#[test]
fn sin_skill_md_es_invalida() {
    let err = validar_contenido(None).unwrap_err();
    assert!(err.contains("sin SKILL.md"), "{err}");
}

#[test]
fn carpeta_inexistente_es_un_arranco_vacio_valido() {
    let salida = listar(&Lectura::Inexistente, None, Vec::new());
    assert!(salida.habilidades.is_empty());
    assert_eq!(salida.manifest.estado, "ok");
}

// ---- further cases ----

#[test]
fn skill_conforme_pasa_y_extrae_el_frente() {
    let frente = validar_contenido(Some(SKILL_OK)).unwrap();
    assert_eq!(frente.name, "find-skills");
    assert_eq!(frente.description, "Help discovering skills");
}

#[test]
fn frontmatter_con_comillas_se_limpia() {
    let frente = validar_contenido(Some(SKILL_OK_COMILLAS)).unwrap();
    assert_eq!(frente.name, "otra-skill");
    assert_eq!(frente.description, "Con comillas");
}

#[test]
fn sin_frontmatter_es_invalida() {
    for texto in [
        "solo texto",
        "---\nsin cierre: nunca\n",
        "---\nname: solo-nombre\n---\n", // missing description
        "---\nname: x\nmissing-description: y\n---\n",
    ] {
        let err = validar_contenido(Some(texto)).unwrap_err();
        assert!(err.contains("frontmatter"), "{texto} → {err}");
    }
}

#[test]
fn name_mal_formado_es_invalida() {
    for name in ["ConMayusculas", "con espacios", "con.puntos", "-arranque-guion", "cierre-", "doble--guion", ""] {
        let texto = format!("---\nname: {name}\ndescription: d\n---\n");
        let err = validar_contenido(Some(&texto)).unwrap_err();
        assert!(err.contains("name inválido"), "{name:?} → {err}");
    }
}

#[test]
fn etiquetas_xml_en_el_frente_son_invalidas() {
    let texto = "---\nname: buen-nombre\ndescription: usa <script>malicioso</script>\n---\n";
    let err = validar_contenido(Some(texto)).unwrap_err();
    assert!(err.contains("XML"), "{err}");
}

#[test]
fn description_vacia_es_invalida() {
    let err = validar_contenido(Some("---\nname: buen-nombre\ndescription: \"\"\n---\n")).unwrap_err();
    assert!(err.contains("description vacía"), "{err}");
}

#[test]
fn listar_deriva_no_gestionada_e_invalida_y_ordena() {
    // the folder's entries, each checked against its SKILL.md
    let carpeta = |nombre: &str, skill_md: Option<&str>| EntradaCarpeta {
        nombre: nombre.into(),
        es_carpeta: true,
        conforme: validar_contenido(skill_md).is_ok(),
    };
    let entradas = vec![
        carpeta("buena", Some(SKILL_OK)),
        carpeta("rota", Some("sin frontmatter")),
        carpeta(".oculta", None),
        EntradaCarpeta { nombre: "suelto.txt".into(), es_carpeta: false, conforme: false },
    ];
    let salida = listar(&Lectura::Inexistente, None, entradas);
    assert_eq!(salida.manifest.estado, "ok");
    assert_eq!(
        salida.habilidades.iter().map(|h| (h.nombre.as_str(), h.estado)).collect::<Vec<_>>(),
        [("buena", EstadoHabilidad::NoGestionada), ("rota", EstadoHabilidad::Invalida)]
    );
}

#[test]
fn frente_con_fines_de_linea_windows() {
    assert_eq!(frente_de("---\r\nname: a\r\ndescription: b\r\n---\r\n"), Some(("a".to_string(), "b".to_string())));
}

#[test]
fn mensajes_exactos_de_validacion() {
    assert_eq!(
        validar_contenido(Some("---\nname: Malo\ndescription: d\n---\n")).unwrap_err(),
        "name inválido: \"Malo\" (minúsculas-con-guiones)"
    );
    let xml = "---\nname: buen-nombre\ndescription: usa <script>malicioso</script>\n---\n";
    assert_eq!(validar_contenido(Some(xml)).unwrap_err(), "etiquetas XML en name/description");
    let vacia = "---\nname: buen-nombre\ndescription: \"\"\n---\n";
    assert_eq!(validar_contenido(Some(vacia)).unwrap_err(), "description vacía");
    assert!(nombre_valido_exec(&"a".repeat(64)));
    assert!(!nombre_valido_exec(&"a".repeat(65)));
}

#[test]
fn listar_con_manifest_cargado_sigue_derivando() {
    let entradas = vec![
        EntradaCarpeta { nombre: "rota".into(), es_carpeta: true, conforme: false },
        EntradaCarpeta { nombre: "buena".into(), es_carpeta: true, conforme: true },
    ];
    let salida = listar(&Lectura::Cargado { mapa: Mapa::new() }, None, entradas);
    assert_eq!(salida.manifest.estado, "ok");
    let filas: Vec<(&str, EstadoHabilidad)> = salida.habilidades.iter().map(|h| (h.nombre.as_str(), h.estado)).collect();
    assert_eq!(filas, [("buena", EstadoHabilidad::NoGestionada), ("rota", EstadoHabilidad::Invalida)]);
}

#[test]
fn manifest_corrupto_se_reporta_sin_ocultar_filas() {
    let entradas = vec![EntradaCarpeta { nombre: "buena".into(), es_carpeta: true, conforme: true }];
    let salida = listar(&Lectura::Corrupto, Some("disco lleno".into()), entradas);
    assert_eq!(salida.manifest.estado, "corrupto");
    assert_eq!(salida.manifest.detalle.as_deref(), Some("(no se pudo conservar la copia .corrupt: disco lleno)"));
    assert_eq!(salida.habilidades.len(), 1);
    let ilegible = estado_del_manifest(&Lectura::Ilegible(std::io::Error::other("sin permiso")), None);
    assert_eq!(ilegible.estado, "ilegible");
    assert_eq!(ilegible.detalle.as_deref(), Some("sin permiso"));
}

#[test]
fn empezar_de_cero_solo_si_sigue_corrupto() {
    assert!(empezar_de_cero(&Lectura::Corrupto));
    assert!(!empezar_de_cero(&Lectura::Inexistente));
    assert!(!empezar_de_cero(&Lectura::Cargado { mapa: Mapa::new() }));
}

#[test]
fn nombre_seguro_mensaje() {
    assert_eq!(nombre_seguro("a/b").unwrap_err(), "nombre de habilidad no seguro: \"a/b\"");
}

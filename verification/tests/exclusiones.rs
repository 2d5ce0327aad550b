use nuupa::exclusiones::{
    cargar_de_texto, documento, empezar_de_cero, entender_lecturas, estado_exclusiones, excluir, lectura_de_texto, mapa_escriturable, necesita_resguardo,
    por_migrar, quitar, Lectura, Mapa,
};
use std::collections::BTreeMap;

#[test]
fn excluir_es_idempotente_y_por_gestor() {
    let mut mapa = Mapa::new();
    excluir(&mut mapa, "npm", "hunkdiff");
    excluir(&mut mapa, "npm", "hunkdiff");
    excluir(&mut mapa, "pnpm", "hunkdiff");
    assert_eq!(mapa.get("npm"), Some(&vec!["hunkdiff".to_string()]));
    assert_eq!(mapa.get("pnpm"), Some(&vec!["hunkdiff".to_string()]));
}

#[test]
fn quitar_es_idempotente_y_no_toca_a_los_demas() {
    let mut mapa = Mapa::new();
    excluir(&mut mapa, "npm", "hunkdiff");
    excluir(&mut mapa, "npm", "context-mode");
    quitar(&mut mapa, "npm", "hunkdiff");
    quitar(&mut mapa, "npm", "hunkdiff");
    quitar(&mut mapa, "bun", "cualquiera");
    assert_eq!(mapa.get("npm"), Some(&vec!["context-mode".to_string()]));
}

#[test]
fn cargar_sin_archivo_devuelve_mapa_vacio_sin_legado() {
    let (mapa, era_legado) = cargar_de_texto(None);
    assert!(mapa.is_empty());
    assert!(!era_legado);
}

#[test]
fn legado_lista_plana_se_normaliza_como_npm() {
    let legado = r#"["hunkdiff", "@org/paquete"]"#;
    let (mapa, era_legado) = cargar_de_texto(Some(legado));
    assert!(era_legado);
    assert_eq!(mapa.get("npm"), Some(&vec!["hunkdiff".to_string(), "@org/paquete".to_string()]));
}

#[test]
fn archivo_corrupto_arranca_limpio() {
    let (mapa, era_legado) = cargar_de_texto(Some("no soy json"));
    assert!(mapa.is_empty());
    assert!(!era_legado);
}

// ---- further cases ----

#[test]
fn cargar_mapa_por_gestor() {
    let (mapa, era_legado) = cargar_de_texto(Some(r#"{"npm": ["a"], "pnpm": []}"#));
    assert!(!era_legado);
    assert_eq!(mapa.len(), 2);
    assert_eq!(mapa.get("npm"), Some(&vec!["a".to_string()]));
    assert_eq!(mapa.get("pnpm"), Some(&Vec::new()));
}

#[test]
fn cargar_forma_desconocida_es_vacio() {
    let (mapa, era_legado) = cargar_de_texto(Some(r#"{"npm": ["a", 1]}"#));
    assert!(mapa.is_empty());
    assert!(!era_legado);
    let (vacio, legado) = cargar_de_texto(Some("[]"));
    assert!(vacio.is_empty());
    assert!(legado);
}

#[test]
fn clave_repetida_con_valor_invalido_no_se_entiende() {
    // the map is read as a typed map: a member of the wrong type is refused
    // even where a later member of the same name would be valid
    let (mapa, era_legado) = cargar_de_texto(Some(r#"{"npm": 5, "npm": ["a"]}"#));
    assert!(mapa.is_empty());
    assert!(!era_legado);
    assert!(matches!(lectura_de_texto(r#"{"npm": 5, "npm": ["a"]}"#), Lectura::Corrupto));
}

#[test]
fn documento_se_relee_como_el_mismo_mapa() {
    let mut mapa = Mapa::new();
    excluir(&mut mapa, "pnpm", "otro");
    excluir(&mut mapa, "npm", "comillas \"y\" barras \\ ñ");
    quitar(&mut mapa, "pnpm", "otro");
    let texto = documento(&mapa);
    match lectura_de_texto(&texto) {
        Lectura::Cargado { mapa: leido, era_legado } => {
            assert!(!era_legado);
            assert_eq!(leido.len(), 2);
            assert_eq!(leido.get("npm"), Some(&vec!["comillas \"y\" barras \\ ñ".to_string()]));
            assert_eq!(leido.get("pnpm"), Some(&Vec::new()));
        },
        otra => panic!("{otra:?}"),
    }
}

#[test]
fn entender_lecturas_por_forma() {
    let (mapa, legado) = entender_lecturas(Some(vec!["a".to_string()]), None).unwrap();
    assert!(legado);
    assert_eq!(mapa.len(), 1);
    assert_eq!(mapa.get("npm"), Some(&vec!["a".to_string()]));
    let (vacio, legado) = entender_lecturas(Some(Vec::new()), None).unwrap();
    assert!(legado);
    assert!(vacio.is_empty());
    let entradas = vec![("bun".to_string(), vec!["x".to_string()]), ("npm".to_string(), Vec::new())];
    let (mapa, legado) = entender_lecturas(None, Some(entradas)).unwrap();
    assert!(!legado);
    assert_eq!(mapa.get("bun"), Some(&vec!["x".to_string()]));
    assert_eq!(mapa.get("npm"), Some(&Vec::new()));
    assert!(entender_lecturas(None, None).is_none());
}

#[test]
fn excluir_y_quitar_se_anulan() {
    let mut mapa = Mapa::new();
    excluir(&mut mapa, "bun", "headroom-ai");
    quitar(&mut mapa, "bun", "headroom-ai");
    assert_eq!(mapa.get("bun"), Some(&Vec::new()));
    assert_eq!(mapa.get("npm"), None);
}

/// The document written for a map.
fn escrito(mapa: &Mapa) -> String {
    documento(mapa)
}

#[test]
fn el_documento_es_el_mapa_en_json_legible() {
    let mut mapa = Mapa::new();
    mapa.insert("pnpm".to_string(), vec!["otro".to_string()]);
    mapa.insert("npm".to_string(), vec!["hunkdiff".to_string(), "@org/paquete".to_string()]);
    assert_eq!(
        escrito(&mapa),
        "{\n  \"npm\": [\n    \"hunkdiff\",\n    \"@org/paquete\"\n  ],\n  \"pnpm\": [\n    \"otro\"\n  ]\n}"
    );
    assert_eq!(escrito(&Mapa::new()), "{}");
}

/// The exclusions file, kept in memory: `None` while it does not exist.
struct Archivo(Option<String>);

impl Archivo {
    fn leer(&self) -> Lectura {
        match &self.0 {
            None => Lectura::Inexistente,
            Some(t) => lectura_de_texto(t),
        }
    }

    /// A manager's exclusions as the UI asks for them: the legacy list is
    /// rewritten in map form on the way, once.
    fn nombres(&mut self, gestor: &str) -> Vec<String> {
        let lectura = self.leer();
        if let Some(mapa) = por_migrar(&lectura) {
            self.0 = Some(escrito(mapa));
        }
        let estado = estado_exclusiones(&lectura, gestor, None);
        assert_eq!(estado.estado, "ok");
        estado.nombres
    }

    fn modificar(&mut self, op: impl FnOnce(&mut Mapa)) -> Result<(), String> {
        let mut mapa = mapa_escriturable(self.leer())?;
        op(&mut mapa);
        self.0 = Some(escrito(&mapa));
        Ok(())
    }
}

#[test]
fn exclusiones_granulares_roundtrip_por_gestor_y_migracion_legada() {
    let mut archivo = Archivo(Some(r#"["hunkdiff"]"#.to_string()));
    // legacy → the first read migrates once, as npm's
    assert_eq!(archivo.nombres("npm"), ["hunkdiff"]);
    assert!(matches!(archivo.leer(), Lectura::Cargado { era_legado: false, .. }));
    assert_eq!(archivo.nombres("pnpm"), Vec::<String>::new());
    // granular, idempotent, per (gestor, paquete)
    archivo.modificar(|m| excluir(m, "pnpm", "cowsay")).unwrap();
    archivo.modificar(|m| excluir(m, "pnpm", "cowsay")).unwrap(); // no duplicate
    archivo.modificar(|m| quitar(m, "npm", "hunkdiff")).unwrap();
    archivo.modificar(|m| quitar(m, "npm", "hunkdiff")).unwrap(); // absent: fine
    assert_eq!(archivo.nombres("pnpm"), ["cowsay"]);
    assert_eq!(archivo.nombres("npm"), Vec::<String>::new());
}

/// A map as the document denotes it.
fn como_mapa(mapa: &Mapa) -> BTreeMap<String, Vec<String>> {
    mapa.entradas().iter().cloned().collect()
}

#[test]
fn guardar_y_cargar_hacen_roundtrip_por_gestor() {
    let mut mapa = Mapa::new();
    mapa.insert("npm".to_string(), vec!["hunkdiff".to_string()]);
    mapa.insert("pnpm".to_string(), vec!["@org/paquete".to_string(), "otro".to_string()]);
    let (cargado, era_legado) = cargar_de_texto(Some(&escrito(&mapa)));
    assert_eq!(como_mapa(&cargado), como_mapa(&mapa));
    assert!(!era_legado);
}

#[test]
fn migracion_reescrita_es_idempotente() {
    // First load: legacy → rewritten in map format
    let (mapa, era_legado) = cargar_de_texto(Some(r#"["hunkdiff"]"#));
    assert!(era_legado);
    let reescrito = escrito(&mapa);
    // Second load: no longer legacy
    let (mapa2, era_legado2) = cargar_de_texto(Some(&reescrito));
    assert!(!era_legado2);
    assert_eq!(mapa2.get("npm"), Some(&vec!["hunkdiff".to_string()]));
}

#[test]
fn guardar_vacio_para_un_gestor_no_borra_los_demas() {
    let mut mapa = Mapa::new();
    mapa.insert("npm".to_string(), vec!["hunkdiff".to_string()]);
    mapa.insert("pnpm".to_string(), vec!["otro".to_string()]);
    // removing pnpm's last exclusion leaves an empty list
    mapa.insert("pnpm".to_string(), vec![]);
    let (cargado, _) = cargar_de_texto(Some(&escrito(&mapa)));
    assert_eq!(cargado.get("npm"), Some(&vec!["hunkdiff".to_string()]));
    assert_eq!(cargado.get("pnpm"), Some(&Vec::new()));
}

#[test]
fn la_migracion_ocurre_una_sola_vez() {
    let mut archivo = Archivo(Some(r#"["hunkdiff"]"#.to_string()));
    assert_eq!(archivo.nombres("npm"), ["hunkdiff"]);
    let migrado = archivo.0.clone();
    // the rewritten map is read back as a map: nothing to migrate again
    assert!(por_migrar(&archivo.leer()).is_none());
    assert_eq!(archivo.nombres("npm"), ["hunkdiff"]);
    assert_eq!(archivo.0, migrado);
}

#[test]
fn archivo_corrupto_bloquea_escrituras_y_se_reporta() {
    let lectura = lectura_de_texto("no soy json");
    assert!(matches!(lectura, Lectura::Corrupto));
    assert!(necesita_resguardo(&lectura));
    assert!(empezar_de_cero(&lectura));
    let estado = estado_exclusiones(&lectura, "npm", Some("disco lleno".to_string()));
    assert_eq!(estado.estado, "corrupto");
    assert_eq!(estado.detalle.as_deref(), Some("(no se pudo conservar la copia .corrupt: disco lleno)"));
    assert!(estado.nombres.is_empty());
    assert_eq!(
        mapa_escriturable(lectura).unwrap_err(),
        "el archivo de exclusiones está dañado (conservado como .corrupt): resuélvelo antes de escribir"
    );
    // a VALID json with the WRONG shape is corrupt too
    assert!(matches!(lectura_de_texto(r#"{"npm": "hunkdiff"}"#), Lectura::Corrupto));
}

#[test]
fn archivo_ilegible_o_inexistente() {
    let ilegible = Lectura::Ilegible(std::io::Error::other("sin permiso"));
    let estado = estado_exclusiones(&ilegible, "npm", None);
    assert_eq!(estado.estado, "ilegible");
    assert_eq!(estado.detalle.as_deref(), Some("sin permiso"));
    assert_eq!(mapa_escriturable(ilegible).unwrap_err(), "no se puede leer el archivo de exclusiones: sin permiso");
    let inexistente = estado_exclusiones(&Lectura::Inexistente, "npm", None);
    assert_eq!((inexistente.estado.as_str(), inexistente.nombres.len()), ("ok", 0));
    assert!(mapa_escriturable(Lectura::Inexistente).unwrap().is_empty());
    assert!(!empezar_de_cero(&Lectura::Inexistente));
}

use gestor_memoria::models::{AlgoritmoReemplazo, ColorRgb, GestorMemoria, Proceso};

fn proceso(pid: usize, tamano_kb: usize) -> Proceso {
    Proceso {
        pid,
        nombre: format!("P_{}", pid),
        tamano_kb,
        paginas: vec![],
        color: ColorRgb { r: 100, g: 150, b: 200 },
    }
}

#[test]
fn construccion_inicial() {
    let g = GestorMemoria::new(400, 200, 100, AlgoritmoReemplazo::FIFO);
    assert_eq!(g.marcos_ram.len(), 4);
    for (i, m) in g.marcos_ram.iter().enumerate() {
        assert_eq!(m.id, i);
        assert!(m.proceso_id.is_none());
        assert!(m.pagina_id.is_none());
    }
    assert_eq!(g.cola_swap.len(), 0);
    assert_eq!(g.procesos.len(), 0);
    assert_eq!(g.puntero_reloj, 0);
    assert_eq!(g.fallos_pagina, 0);
    assert_eq!(g.accesos_totales, 0);
    assert_eq!(g.logs.len(), 1);
}

#[test]
fn escenario_admision_y_fallo() {
    // page size 100, 4 frames; A of 250 KB needs 3 pages and fills frames
    // 0..2 without a fault; B of 150 KB needs 2: the first takes frame 3,
    // the second faults and evicts through the active policy.
    let mut g = GestorMemoria::new(400, 200, 100, AlgoritmoReemplazo::FIFO);
    g.asignar_proceso(proceso(1, 250));
    assert_eq!(g.fallos_pagina, 0);
    assert_eq!(g.accesos_totales, 3);
    assert_eq!(g.contar_marcos_libres(), 1);
    assert_eq!(g.marcos_ram[0].proceso_id, Some(1));
    assert_eq!(g.marcos_ram[1].proceso_id, Some(1));
    assert_eq!(g.marcos_ram[2].proceso_id, Some(1));

    g.asignar_proceso(proceso(2, 150));
    assert_eq!(g.accesos_totales, 5);
    assert_eq!(g.fallos_pagina, 1);
    assert_eq!(g.cola_swap.len(), 1);
    assert_eq!(g.swaps_realizados, 1);
    assert_eq!(g.contar_marcos_libres(), 0);
    assert_eq!(g.procesos.len(), 2);
}

#[test]
fn fifo_rotacion_del_puntero() {
    // under FIFO, after k successful loads the pointer stands at k mod F
    let mut g = GestorMemoria::new(400, 0, 100, AlgoritmoReemplazo::FIFO);
    g.asignar_proceso(proceso(1, 200));
    assert_eq!(g.puntero_reloj, 2 % 4);
    g.asignar_proceso(proceso(2, 300));
    assert_eq!(g.puntero_reloj, 5 % 4);
}

#[test]
fn fifo_victima_es_el_puntero() {
    let mut g = GestorMemoria::new(400, 0, 100, AlgoritmoReemplazo::FIFO);
    g.asignar_proceso(proceso(1, 400));
    // 4 loads: the pointer wrapped to 0, so the next fault evicts frame 0
    assert_eq!(g.puntero_reloj, 0);
    g.asignar_proceso(proceso(2, 100));
    assert_eq!(g.marcos_ram[0].proceso_id, Some(2));
    assert_eq!(g.cola_swap.front(), Some(&(1, 0)));
}

#[test]
fn reloj_segunda_oportunidad() {
    // all reference bits start set: one eviction clears the whole circuit
    // and takes the frame under the pointer
    let mut g = GestorMemoria::new(300, 0, 100, AlgoritmoReemplazo::Reloj);
    g.asignar_proceso(proceso(1, 300));
    assert_eq!(g.puntero_reloj, 0);
    for i in 0..3 {
        assert!(g.obtener_info_pagina(1, i).unwrap().referenciada);
    }
    g.asignar_proceso(proceso(2, 100));
    // the victim was frame 0; the other resident pages lost their bits
    assert_eq!(g.marcos_ram[0].proceso_id, Some(2));
    assert_eq!(g.cola_swap.front(), Some(&(1, 0)));
    assert!(!g.obtener_info_pagina(1, 1).unwrap().referenciada);
    assert!(!g.obtener_info_pagina(1, 2).unwrap().referenciada);
    assert_eq!(g.puntero_reloj, 0);
}

#[test]
fn lru_minimo_con_empate() {
    // timestamps [5, 2, 2, 9]: the victim is frame 1, the first of the tie
    let mut g = GestorMemoria::new(400, 0, 100, AlgoritmoReemplazo::LRU);
    g.asignar_proceso(proceso(1, 400));
    let usos = [5u64, 2, 2, 9];
    for (k, uso) in usos.iter().enumerate() {
        g.procesos[0].paginas[k].ultimo_uso = *uso;
    }
    g.asignar_proceso(proceso(2, 100));
    assert_eq!(g.marcos_ram[1].proceso_id, Some(2));
    assert_eq!(g.cola_swap.front(), Some(&(1, 1)));
    assert_eq!(g.marcos_ram[0].proceso_id, Some(1));
    assert_eq!(g.marcos_ram[3].proceso_id, Some(1));
}

#[test]
fn swap_lleno_rechaza_la_eviccion() {
    // one frame of 1 KB; each admission after the first evicts one page,
    // filling the swap area to its 50-entry cap
    let mut g = GestorMemoria::new(1, 0, 1, AlgoritmoReemplazo::FIFO);
    for pid in 1..=51 {
        g.asignar_proceso(proceso(pid, 1));
    }
    assert_eq!(g.cola_swap.len(), 50);
    assert_eq!(g.procesos.len(), 51);
    // the 52nd admission needs a 51st eviction: it fails, the frame keeps
    // its occupant and no entry is appended
    g.asignar_proceso(proceso(52, 1));
    assert_eq!(g.cola_swap.len(), 50);
    assert_eq!(g.marcos_ram[0].proceso_id, Some(51));
    assert_eq!(g.marcos_ram[0].pagina_id, Some(0));
    assert!(!g.procesos.iter().any(|p| p.pid == 52));
    let ultimo = g.logs.last().unwrap();
    assert!(ultimo.contains("Swap lleno"));
}

#[test]
fn terminar_pid_ausente_no_hace_nada() {
    let mut g = GestorMemoria::new(400, 0, 100, AlgoritmoReemplazo::FIFO);
    g.asignar_proceso(proceso(1, 100));
    let logs_antes = g.logs.len();
    let term_antes = g.procesos_finalizados;
    g.terminar_proceso(9);
    assert_eq!(g.procesos.len(), 1);
    assert_eq!(g.procesos_finalizados, term_antes);
    assert_eq!(g.logs.len(), logs_antes);
}

#[test]
fn matar_sin_procesos_no_hace_nada() {
    let mut g = GestorMemoria::new(400, 0, 100, AlgoritmoReemplazo::FIFO);
    let logs_antes = g.logs.len();
    g.matar_proceso_aleatorio();
    assert_eq!(g.procesos_finalizados, 0);
    assert_eq!(g.logs.len(), logs_antes);
}

#[test]
fn matar_libera_recursos() {
    let mut g = GestorMemoria::new(200, 0, 100, AlgoritmoReemplazo::FIFO);
    g.asignar_proceso(proceso(1, 100));
    g.asignar_proceso(proceso(2, 100));
    g.asignar_proceso(proceso(3, 100));
    assert_eq!(g.cola_swap.len(), 1);
    g.matar_proceso_aleatorio();
    g.matar_proceso_aleatorio();
    g.matar_proceso_aleatorio();
    assert_eq!(g.procesos.len(), 0);
    assert_eq!(g.procesos_finalizados, 3);
    assert_eq!(g.cola_swap.len(), 0);
}

#[test]
fn terminar_libera_marcos_y_swap() {
    let mut g = GestorMemoria::new(200, 0, 100, AlgoritmoReemplazo::FIFO);
    g.asignar_proceso(proceso(1, 200));
    g.asignar_proceso(proceso(2, 200));
    // both pages of process 1 were evicted for process 2
    assert_eq!(g.cola_swap.len(), 2);
    g.terminar_proceso(1);
    assert_eq!(g.cola_swap.len(), 0);
    assert!(g.marcos_ram.iter().all(|m| m.proceso_id != Some(1)));
    assert_eq!(g.procesos.len(), 1);
    assert_eq!(g.procesos_finalizados, 1);
    g.terminar_proceso(2);
    assert_eq!(g.contar_marcos_libres(), 2);
}

#[test]
fn ida_y_vuelta_reusa_los_marcos_mas_bajos() {
    // free the first frames and admit another process: the allocator must
    // hand out exactly those frame ids again
    let mut g = GestorMemoria::new(400, 0, 100, AlgoritmoReemplazo::FIFO);
    g.asignar_proceso(proceso(1, 200));
    g.asignar_proceso(proceso(2, 200));
    g.terminar_proceso(1);
    assert_eq!(g.contar_marcos_libres(), 2);
    g.asignar_proceso(proceso(3, 200));
    assert_eq!(g.marcos_ram[0].proceso_id, Some(3));
    assert_eq!(g.marcos_ram[0].pagina_id, Some(0));
    assert_eq!(g.marcos_ram[1].proceso_id, Some(3));
    assert_eq!(g.marcos_ram[1].pagina_id, Some(1));
    assert_eq!(g.marcos_ram[2].proceso_id, Some(2));
    assert_eq!(g.marcos_ram[3].proceso_id, Some(2));
    assert_eq!(g.fallos_pagina, 0);
}

#[test]
fn mapeo_de_ida_y_vuelta_tras_admision() {
    let mut g = GestorMemoria::new(400, 0, 100, AlgoritmoReemplazo::FIFO);
    g.asignar_proceso(proceso(1, 300));
    for p in &g.procesos {
        for pagina in &p.paginas {
            let f = pagina.marco_id.unwrap();
            assert_eq!(g.marcos_ram[f].proceso_id, Some(p.pid));
            assert_eq!(g.marcos_ram[f].pagina_id, Some(pagina.id));
        }
    }
    for m in &g.marcos_ram {
        if let (Some(pid), Some(pg)) = (m.proceso_id, m.pagina_id) {
            let pagina = g.obtener_info_pagina(pid, pg).unwrap();
            assert_eq!(pagina.marco_id, Some(m.id));
        }
    }
}

#[test]
fn registro_acotado_a_veinte() {
    let mut g = GestorMemoria::new(400, 0, 100, AlgoritmoReemplazo::FIFO);
    for i in 0..30 {
        g.registrar_log(&format!("evento {}", i));
    }
    assert_eq!(g.logs.len(), 20);
    assert_eq!(g.logs.last().unwrap(), "evento 29");
    assert_eq!(g.logs[0], "evento 10");
}

#[test]
fn consulta_de_pagina() {
    let mut g = GestorMemoria::new(400, 0, 100, AlgoritmoReemplazo::FIFO);
    g.asignar_proceso(proceso(7, 150));
    let pagina = g.obtener_info_pagina(7, 1).unwrap();
    assert_eq!(pagina.id, 1);
    assert_eq!(pagina.marco_id, Some(1));
    assert!(pagina.referenciada);
    assert_eq!(pagina.ultimo_uso, 2);
    assert!(g.obtener_info_pagina(7, 2).is_none());
    assert!(g.obtener_info_pagina(8, 0).is_none());
}

#[test]
fn cambio_de_algoritmo() {
    let mut g = GestorMemoria::new(400, 0, 100, AlgoritmoReemplazo::FIFO);
    g.cambiar_algoritmo(AlgoritmoReemplazo::LRU);
    assert_eq!(g.algoritmo, AlgoritmoReemplazo::LRU);
    assert_eq!(g.puntero_reloj, 0);
}

#[test]
fn contiene_pid_ve_los_restos() {
    // after an aborted admission the id lingers in frames and swap
    let mut g = GestorMemoria::new(1, 0, 1, AlgoritmoReemplazo::FIFO);
    for pid in 1..=51 {
        g.asignar_proceso(proceso(pid, 1));
    }
    g.asignar_proceso(proceso(52, 1));
    assert!(g.contiene_pid(51));
    assert!(g.contiene_pid(1));
    assert!(!g.contiene_pid(99));
}

#[test]
fn terminar_conserva_el_orden_del_swap() {
    let mut g = GestorMemoria::new(1, 0, 1, AlgoritmoReemplazo::FIFO);
    g.asignar_proceso(proceso(1, 1));
    g.asignar_proceso(proceso(2, 1));
    g.asignar_proceso(proceso(3, 1));
    g.asignar_proceso(proceso(4, 1));
    let entradas: Vec<(usize, usize)> = g.cola_swap.iter().cloned().collect();
    assert_eq!(entradas, vec![(1, 0), (2, 0), (3, 0)]);
    g.terminar_proceso(2);
    let entradas: Vec<(usize, usize)> = g.cola_swap.iter().cloned().collect();
    assert_eq!(entradas, vec![(1, 0), (3, 0)]);
}

#[test]
fn reloj_toma_la_pagina_sin_bit() {
    // a page whose reference bit is already clear is evicted at once,
    // and later pages keep their bits
    let mut g = GestorMemoria::new(200, 0, 100, AlgoritmoReemplazo::Reloj);
    g.asignar_proceso(proceso(1, 200));
    g.procesos[0].paginas[0].referenciada = false;
    g.asignar_proceso(proceso(2, 100));
    assert_eq!(g.marcos_ram[0].proceso_id, Some(2));
    assert_eq!(g.cola_swap.front(), Some(&(1, 0)));
    assert!(g.obtener_info_pagina(1, 1).unwrap().referenciada);
    assert_eq!(g.puntero_reloj, 0);
}

#[test]
fn textos_del_registro() {
    let mut g = GestorMemoria::new(400, 0, 100, AlgoritmoReemplazo::FIFO);
    g.asignar_proceso(proceso(1, 250));
    assert_eq!(
        g.logs.last().unwrap(),
        "[NUEVO] Proceso P1 'P_1' creado (250KB, 3 paginas)"
    );
    g.asignar_proceso(proceso(2, 200));
    assert_eq!(
        g.logs.last().unwrap(),
        "[SWAP] Proceso P1 Pagina 0 movida a Swap (Marco 0 liberado)"
    );
    g.terminar_proceso(2);
    assert_eq!(g.logs.last().unwrap(), "[TERM] Proceso P2 terminado y liberado");
}

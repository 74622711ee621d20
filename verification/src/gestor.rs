//! Operations of the memory manager: construction, the event log, the frame
//! allocator and fault handler, the three eviction policies, and the process
//! lifecycle.

use vstd::prelude::*;

verus! {

use std::collections::VecDeque;
use vstd::string::StringExecFns;
use crate::models::{
    AlgoritmoReemplazo,
    CAPACIDAD_LOGS,
    CAPACIDAD_SWAP,
    GestorMemoria,
    Marco,
    Pagina,
    Proceso,
};
use crate::texto::{decimal, decimal_de};

/// Caps a would-be log length at the log's capacity.
pub open spec fn tope_logs(n: int) -> int {
    if n <= CAPACIDAD_LOGS {
        n
    } else {
        CAPACIDAD_LOGS as int
    }
}

/// The log line an eviction writes.
pub open spec fn mensaje_eviccion(p: usize, g: usize, v: usize) -> Seq<char> {
    "[SWAP] Proceso P"@ + decimal_de(p as nat) + " Pagina "@ + decimal_de(g as nat)
        + " movida a Swap (Marco "@ + decimal_de(v as nat) + " liberado)"@
}

/// The log line a termination writes.
pub open spec fn mensaje_terminacion(pid: usize) -> Seq<char> {
    "[TERM] Proceso P"@ + decimal_de(pid as nat) + " terminado y liberado"@
}

/// The log line an admission writes.
pub open spec fn mensaje_admision(pid: usize, nombre: Seq<char>, tamano: usize, paginas: int) -> Seq<char> {
    "[NUEVO] Proceso P"@ + decimal_de(pid as nat) + " '"@ + nombre + "' creado ("@
        + decimal_de(tamano as nat) + "KB, "@ + decimal_de(paginas as nat) + " paginas)"@
}

/// The number of free frames in a frame table.
pub open spec fn cuenta_libres(s: Seq<Marco>) -> nat
    decreases s.len(),
{
    if s.len() == 0 {
        0
    } else {
        cuenta_libres(s.drop_last()) + if s.last().proceso_id is None {
            1nat
        } else {
            0nat
        }
    }
}

/// The two states agree on every field but the log.
pub open spec fn igual_salvo_logs(a: GestorMemoria, b: GestorMemoria) -> bool {
    b == (GestorMemoria { logs: b.logs, ..a })
}

/// Between the two states the processes keep their identity and their page
/// count, and each page changes only in the bounded ways a replacement can
/// touch it: the reference bit may drop from set to clear, and the resident
/// frame may be withdrawn. Ids and timestamps stay.
pub open spec fn cambio_paginas_acotado(a: GestorMemoria, b: GestorMemoria) -> bool {
    &&& b.procesos@.len() == a.procesos@.len()
    &&& forall|j: int|
        #![trigger b.procesos@[j]]
        0 <= j < a.procesos@.len() ==> {
            let pa = a.procesos@[j];
            let pb = b.procesos@[j];
            &&& pb.pid == pa.pid
            &&& pb.nombre == pa.nombre
            &&& pb.tamano_kb == pa.tamano_kb
            &&& pb.color == pa.color
            &&& pb.paginas@.len() == pa.paginas@.len()
            &&& forall|k: int|
                #![trigger pb.paginas@[k]]
                0 <= k < pa.paginas@.len() ==> {
                    let ga = pa.paginas@[k];
                    let gb = pb.paginas@[k];
                    &&& gb.id == ga.id
                    &&& gb.ultimo_uso == ga.ultimo_uso
                    &&& (gb.referenciada ==> ga.referenciada)
                    &&& (gb.marco_id == ga.marco_id || gb.marco_id is None)
                }
        }
}

/// State change of a replacement that selected victim `v`: the policy chose
/// `v`, the victim's page (when its process is live) is marked non-resident,
/// and under Clock the scanned pages gave up their reference bits and the
/// pointer rests on the victim. FIFO and LRU leave the pointer alone.
pub open spec fn efecto_seleccion(a: GestorMemoria, b: GestorMemoria, v: int) -> bool {
    &&& a.seleccion_victima(v)
    &&& 0 <= v < a.marcos_ram@.len()
    &&& a.marco_ocupado(v)
    &&& (a.tiene_proceso(a.marcos_ram@[v].proceso_id->0) ==> b.pagina_de(
        a.marcos_ram@[v].proceso_id->0,
        a.marcos_ram@[v].pagina_id->0,
    ).marco_id is None)
    // no page but the victim's loses its resident frame
    &&& forall|j: int, kk: int|
        #![trigger b.procesos@[j].paginas@[kk]]
        0 <= j < a.procesos@.len() && 0 <= kk < a.procesos@[j].paginas@.len() && !(
        a.procesos@[j].pid == a.marcos_ram@[v].proceso_id->0 && kk
            == a.marcos_ram@[v].pagina_id->0 as int) ==> b.procesos@[j].paginas@[kk].marco_id
            == a.procesos@[j].paginas@[kk].marco_id
    &&& (a.algoritmo is Reloj ==> b.puntero_reloj as int == v && exists|n: int|
        {
            &&& #[trigger] a.escaneo_reloj(n, v)
            &&& forall|k: int|
                0 <= k < n ==> {
                    let i = #[trigger] a.desplazado(k);
                    b.pagina_de(
                        a.marcos_ram@[i].proceso_id->0,
                        a.marcos_ram@[i].pagina_id->0,
                    ).referenciada == false
                }
        })
    &&& (!(a.algoritmo is Reloj) ==> b.puntero_reloj == a.puntero_reloj)
}

/// Some step `k` of the first `n` clock steps visited a frame occupied by
/// exactly this (process, page) pair.
pub open spec fn escaneado(a: GestorMemoria, n: int, pid: usize, pg: usize) -> bool {
    exists|k: int|
        0 <= k < n && (#[trigger] a.marcos_ram@[a.desplazado(k)]).proceso_id == Some(pid)
            && a.marcos_ram@[a.desplazado(k)].pagina_id == Some(pg)
}

/// The page tables of `ahora` are those of `a` with the reference bit
/// cleared on every page that the first `n` clock steps visited.
pub open spec fn paginas_escaneadas(a: GestorMemoria, ahora: GestorMemoria, n: int) -> bool {
    &&& ahora.procesos@.len() == a.procesos@.len()
    &&& forall|j: int, kk: int|
        #![trigger ahora.procesos@[j].paginas@[kk]]
        0 <= j < a.procesos@.len() && 0 <= kk < a.procesos@[j].paginas@.len()
            ==> ahora.procesos@[j].paginas@[kk] == if escaneado(
            a,
            n,
            a.procesos@[j].pid,
            kk as usize,
        ) {
            (Pagina { referenciada: false, ..a.procesos@[j].paginas@[kk] })
        } else {
            a.procesos@[j].paginas@[kk]
        }
}

/// The two states hold the same processes, each with its identity and its
/// page count; only the contents of pages may differ.
pub open spec fn identidad_procesos(a: GestorMemoria, b: GestorMemoria) -> bool {
    &&& b.procesos@.len() == a.procesos@.len()
    &&& forall|j: int|
        #![trigger b.procesos@[j]]
        0 <= j < a.procesos@.len() ==> {
            &&& b.procesos@[j].pid == a.procesos@[j].pid
            &&& b.procesos@[j].nombre == a.procesos@[j].nombre
            &&& b.procesos@[j].tamano_kb == a.procesos@[j].tamano_kb
            &&& b.procesos@[j].color == a.procesos@[j].color
            &&& b.procesos@[j].paginas@.len() == a.procesos@[j].paginas@.len()
        }
}

/// The state as it stands right after a load bumped the access counter and,
/// on a fault, the fault counter: the state the eviction policy sees.
pub open spec fn con_acceso_contado(a: GestorMemoria, fallo: bool) -> GestorMemoria {
    GestorMemoria {
        accesos_totales: (a.accesos_totales + 1) as usize,
        fallos_pagina: if fallo {
            (a.fallos_pagina + 1) as usize
        } else {
            a.fallos_pagina
        },
        ..a
    }
}

/// What one successful page load does to the manager: frame `t` now holds
/// `(pid, pg)`; with a free frame available `t` is the lowest free index and
/// nothing is evicted, otherwise `t` is the victim of the active policy and
/// its previous occupant moved to the swap area; the loaded page is stamped
/// resident with the load's timestamp; FIFO rotates the pointer once.
pub open spec fn carga_correcta(
    a: GestorMemoria,
    b: GestorMemoria,
    pid: usize,
    pg: usize,
    t: int,
) -> bool {
    let len = a.marcos_ram@.len() as int;
    &&& 0 <= t < len
    &&& b.marcos_ram@ == a.marcos_ram@.update(
        t,
        (Marco { id: t as usize, proceso_id: Some(pid), pagina_id: Some(pg) }),
    )
    &&& if !a.sin_marcos_libres() {
        &&& !a.marco_ocupado(t)
        &&& (forall|i: int| 0 <= i < t ==> a.marco_ocupado(i))
        &&& b.fallos_pagina == a.fallos_pagina
        &&& b.cola_swap@ == a.cola_swap@
        &&& b.swaps_realizados == a.swaps_realizados
        &&& (a.algoritmo is Reloj ==> b.puntero_reloj == a.puntero_reloj)
        &&& b.logs == a.logs
        // no page but the loaded one changes at all
        &&& forall|j: int, kk: int|
            #![trigger b.procesos@[j].paginas@[kk]]
            0 <= j < a.procesos@.len() && 0 <= kk < a.procesos@[j].paginas@.len() && !(
            a.procesos@[j].pid == pid && kk == pg as int) ==> b.procesos@[j].paginas@[kk]
                == a.procesos@[j].paginas@[kk]
    } else {
        &&& con_acceso_contado(a, true).seleccion_victima(t)
        &&& b.fallos_pagina == a.fallos_pagina + 1
        &&& b.cola_swap@ == a.cola_swap@.push(
            ((a.marcos_ram@[t].proceso_id->0, a.marcos_ram@[t].pagina_id->0)),
        )
        &&& b.swaps_realizados == a.swaps_realizados + 1
        &&& (a.algoritmo is Reloj ==> b.puntero_reloj as int == t)
        &&& b.logs@.len() as int == tope_logs(a.logs@.len() + 1int)
        &&& b.logs@.len() > 0
        &&& b.logs@.last()@ == mensaje_eviccion(
            a.marcos_ram@[t].proceso_id->0,
            a.marcos_ram@[t].pagina_id->0,
            t as usize,
        )
        // no page but the loaded one and the evicted victim's moves frame
        &&& forall|j: int, kk: int|
            #![trigger b.procesos@[j].paginas@[kk]]
            0 <= j < a.procesos@.len() && 0 <= kk < a.procesos@[j].paginas@.len() && !(
            a.procesos@[j].pid == pid && kk == pg as int) && !(a.procesos@[j].pid
                == a.marcos_ram@[t].proceso_id->0 && kk == a.marcos_ram@[t].pagina_id->0 as int)
                ==> b.procesos@[j].paginas@[kk].marco_id == a.procesos@[j].paginas@[kk].marco_id
    }
    &&& (a.algoritmo is FIFO ==> b.puntero_reloj as int == (a.puntero_reloj + 1) % len)
    &&& (a.algoritmo is LRU ==> b.puntero_reloj == a.puntero_reloj)
    &&& (a.tiene_proceso(pid) ==> b.pagina_de(pid, pg) == (Pagina {
        id: pg,
        marco_id: Some(t as usize),
        referenciada: true,
        ultimo_uso: (a.accesos_totales + 1) as u64,
    }))
}

/// What terminating the live process `pid` does to the manager: the process
/// leaves the live collection, every frame it occupied is freed, every swap
/// entry of it is purged, the terminated counter grows by one and one event
/// is logged. Nothing else moves.
pub open spec fn relacion_terminacion(a: GestorMemoria, b: GestorMemoria, pid: usize) -> bool {
    &&& a.tiene_proceso(pid)
    &&& b.procesos@ == a.procesos@.remove(a.idx_proceso(pid))
    &&& b.marcos_ram@.len() == a.marcos_ram@.len()
    &&& forall|i: int|
        0 <= i < a.marcos_ram@.len() ==> #[trigger] b.marcos_ram@[i] == if a.marcos_ram@[i].proceso_id
            == Some(pid) {
            (Marco { id: i as usize, proceso_id: None, pagina_id: None })
        } else {
            a.marcos_ram@[i]
        }
    &&& b.cola_swap@ == sin_pid(a.cola_swap@, pid)
    &&& b.procesos_finalizados == a.procesos_finalizados + 1
    &&& b.accesos_totales == a.accesos_totales
    &&& b.fallos_pagina == a.fallos_pagina
    &&& b.swaps_realizados == a.swaps_realizados
    &&& b.procesos_creados == a.procesos_creados
    &&& b.algoritmo == a.algoritmo
    &&& b.tamano_pagina_kb == a.tamano_pagina_kb
    &&& b.puntero_reloj == a.puntero_reloj
    &&& b.logs@.len() as int == tope_logs(a.logs@.len() + 1int)
    &&& b.logs@.len() > 0
    &&& b.logs@.last()@ == mensaje_terminacion(pid)
}

/// Relies on rand's `thread_rng` and `Rng::gen_range`: a draw from `0..n`
/// lies below `n`. Nothing more is assumed of the value.
#[verifier::external_body]
fn indice_aleatorio(n: usize) -> (r: usize)
    requires
        n > 0,
    ensures
        r < n,
{
    rand::Rng::gen_range(&mut rand::thread_rng(), 0..n)
}

/// Pages a process of this size needs: its size divided by the page size,
/// rounded up.
pub open spec fn paginas_necesarias(tamano_kb: int, tamano_pagina_kb: int) -> int {
    (tamano_kb + tamano_pagina_kb - 1) / tamano_pagina_kb
}

/// Overwriting one frame moves the free count by the difference the two
/// frames make.
proof fn lema_cuenta_update(s: Seq<Marco>, t: int, m: Marco)
    requires
        0 <= t < s.len(),
    ensures
        cuenta_libres(s.update(t, m)) == cuenta_libres(s) - (if s[t].proceso_id is None {
            1int
        } else {
            0int
        }) + (if m.proceso_id is None {
            1int
        } else {
            0int
        }),
    decreases s.len(),
{
    let su = s.update(t, m);
    if t == s.len() - 1 {
        assert(su.drop_last() =~= s.drop_last());
        assert(su.last() == m);
    } else {
        assert(su.drop_last() =~= s.drop_last().update(t, m));
        assert(su.last() == s.last());
        lema_cuenta_update(s.drop_last(), t, m);
    }
}

/// A table with a positive free count holds a free frame.
proof fn lema_cuenta_positiva(s: Seq<Marco>)
    ensures
        cuenta_libres(s) > 0 ==> exists|i: int|
            0 <= i < s.len() && (#[trigger] s[i]).proceso_id is None,
    decreases s.len(),
{
    if s.len() > 0 && cuenta_libres(s) > 0 {
        if s.last().proceso_id is None {
            assert(s[s.len() - 1].proceso_id is None);
        } else {
            lema_cuenta_positiva(s.drop_last());
            let i = choose|i: int|
                0 <= i < s.drop_last().len() && (#[trigger] s.drop_last()[i]).proceso_id is None;
            assert(s[i].proceso_id is None);
        }
    }
}

/// A table holding a free frame has a positive free count.
proof fn lema_libre_da_cuenta(s: Seq<Marco>, i: int)
    requires
        0 <= i < s.len(),
        s[i].proceso_id is None,
    ensures
        cuenta_libres(s) > 0,
    decreases s.len(),
{
    if i < s.len() - 1 {
        lema_libre_da_cuenta(s.drop_last(), i);
    }
}

/// A table with a positive free count is not full.
proof fn lema_libre_existe(a: GestorMemoria)
    requires
        cuenta_libres(a.marcos_ram@) > 0,
    ensures
        !a.sin_marcos_libres(),
{
    lema_cuenta_positiva(a.marcos_ram@);
    let iw = choose|i: int|
        0 <= i < a.marcos_ram@.len() && (#[trigger] a.marcos_ram@[i]).proceso_id is None;
    assert(!a.marco_ocupado(iw));
}

/// One hit of the admission loop under a sufficient free budget: the loaded
/// page took the lowest frame still free, which extends the ascending,
/// gap-free placement of the new pages into the frames that were free on
/// entry to the admission.
proof fn lema_colocacion_paso(
    viejo: GestorMemoria,
    antes: GestorMemoria,
    ahora: GestorMemoria,
    pid: usize,
    len0: int,
    idx: usize,
    t: int,
)
    requires
        antes.bien_formado(),
        0 <= len0 < antes.procesos@.len(),
        antes.procesos@.len() == ahora.procesos@.len(),
        antes.procesos@[len0].pid == pid,
        antes.marcos_ram@.len() == viejo.marcos_ram@.len(),
        idx < antes.procesos@[len0].paginas@.len(),
        ahora.procesos@[len0].paginas@.len() == antes.procesos@[len0].paginas@.len(),
        // a frame changed so far only to receive one of the new pages
        forall|i: int|
            0 <= i < viejo.marcos_ram@.len() ==> (#[trigger] antes.marcos_ram@[i])
                == viejo.marcos_ram@[i] || antes.marcos_ram@[i].proceso_id == Some(pid),
        // frames of the new process hold already loaded pages only
        forall|i: int|
            0 <= i < antes.marcos_ram@.len() && (#[trigger] antes.marcos_ram@[i]).proceso_id
                == Some(pid) ==> antes.marcos_ram@[i].pagina_id->0 < idx,
        // the load was a hit on the lowest free frame
        0 <= t < antes.marcos_ram@.len(),
        !antes.marco_ocupado(t),
        forall|i: int| 0 <= i < t ==> antes.marco_ocupado(i),
        ahora.marcos_ram@ == antes.marcos_ram@.update(
            t,
            (Marco { id: t as usize, proceso_id: Some(pid), pagina_id: Some(idx) }),
        ),
        // only the loaded page changed, and it is resident at `t`
        forall|m: int|
            0 <= m < antes.procesos@[len0].paginas@.len() && m != idx ==> (
            #[trigger] ahora.procesos@[len0].paginas@[m]) == antes.procesos@[len0].paginas@[m],
        ahora.procesos@[len0].paginas@[idx as int].marco_id == Some(t as usize),
        // the placement built so far
        forall|m: int|
            0 <= m < idx ==> (#[trigger] antes.procesos@[len0].paginas@[m]).marco_id is Some,
        forall|m: int|
            0 <= m < idx ==> !viejo.marco_ocupado(
                (#[trigger] antes.procesos@[len0].paginas@[m]).marco_id->0 as int,
            ),
        forall|m1: int, m2: int|
            0 <= m1 < m2 < idx ==> (#[trigger] antes.procesos@[len0].paginas@[m1]).marco_id->0
                < (#[trigger] antes.procesos@[len0].paginas@[m2]).marco_id->0,
        forall|m: int, i: int|
            #![trigger antes.procesos@[len0].paginas@[m], viejo.marcos_ram@[i]]
            0 <= m < idx && 0 <= i < antes.procesos@[len0].paginas@[m].marco_id->0 as int
                && !viejo.marco_ocupado(i) ==> exists|m2: int|
                0 <= m2 < m && (#[trigger] antes.procesos@[len0].paginas@[m2]).marco_id->0 as int
                    == i,
        forall|m: int|
            0 <= m < idx ==> antes.marcos_ram@[(
            #[trigger] antes.procesos@[len0].paginas@[m]).marco_id->0 as int] == (Marco {
                id: antes.procesos@[len0].paginas@[m].marco_id->0,
                proceso_id: Some(pid),
                pagina_id: Some(m as usize),
            }),
    ensures
        forall|m: int|
            0 <= m < idx + 1 ==> (#[trigger] ahora.procesos@[len0].paginas@[m]).marco_id is Some,
        forall|m: int|
            0 <= m < idx + 1 ==> !viejo.marco_ocupado(
                (#[trigger] ahora.procesos@[len0].paginas@[m]).marco_id->0 as int,
            ),
        forall|m1: int, m2: int|
            0 <= m1 < m2 < idx + 1 ==> (#[trigger] ahora.procesos@[len0].paginas@[m1]).marco_id->0
                < (#[trigger] ahora.procesos@[len0].paginas@[m2]).marco_id->0,
        forall|m: int, i: int|
            #![trigger ahora.procesos@[len0].paginas@[m], viejo.marcos_ram@[i]]
            0 <= m < idx + 1 && 0 <= i < ahora.procesos@[len0].paginas@[m].marco_id->0 as int
                && !viejo.marco_ocupado(i) ==> exists|m2: int|
                0 <= m2 < m && (#[trigger] ahora.procesos@[len0].paginas@[m2]).marco_id->0 as int
                    == i,
        forall|m: int|
            0 <= m < idx + 1 ==> ahora.marcos_ram@[(
            #[trigger] ahora.procesos@[len0].paginas@[m]).marco_id->0 as int] == (Marco {
                id: ahora.procesos@[len0].paginas@[m].marco_id->0,
                proceso_id: Some(pid),
                pagina_id: Some(m as usize),
            }),
{
    let pgs_a = antes.procesos@[len0].paginas@;
    let pgs_b = ahora.procesos@[len0].paginas@;
    // the target frame was free on entry to the admission: had it changed,
    // it would hold one of the new pages, but it holds nothing
    assert(!viejo.marco_ocupado(t)) by {
        assert(antes.marcos_ram@[t] == viejo.marcos_ram@[t] || antes.marcos_ram@[t].proceso_id
            == Some(pid));
    }
    // every earlier page sits strictly below the new frame
    assert forall|m: int| 0 <= m < idx implies pgs_a[m].marco_id->0 < t by {
        let fm = pgs_a[m].marco_id->0 as int;
        assert(antes.marcos_ram@[fm].proceso_id == Some(pid));
        if t == fm {
            assert(antes.marco_ocupado(t));
            assert(false);
        }
        if t < fm {
            // the gap-free clause would place an earlier page at `t`,
            // yet `t` is free
            assert(viejo.marcos_ram@[t] == viejo.marcos_ram@[t]);
            let m2 = choose|m2: int|
                0 <= m2 < m && (#[trigger] pgs_a[m2]).marco_id->0 as int == t;
            assert(antes.marcos_ram@[t].proceso_id == Some(pid));
            assert(false);
        }
    }
    // every frame free on entry and below `t` already received a page:
    // it is occupied now, and only the new pages occupy changed frames
    assert forall|i: int|
        0 <= i < t && !viejo.marco_ocupado(i) implies exists|m2: int|
        0 <= m2 < idx + 1 && (#[trigger] pgs_b[m2]).marco_id->0 as int == i by {
        assert(antes.marco_ocupado(i));
        assert(antes.marcos_ram@[i].proceso_id == Some(pid)) by {
            assert(antes.marcos_ram@[i] == viejo.marcos_ram@[i] || antes.marcos_ram@[i].proceso_id
                == Some(pid));
        }
        let mp = antes.marcos_ram@[i].pagina_id->0 as int;
        assert(0 <= mp < idx);
        let fmp = pgs_a[mp].marco_id->0 as int;
        assert(antes.marcos_ram@[fmp] == (Marco {
            id: pgs_a[mp].marco_id->0,
            proceso_id: Some(pid),
            pagina_id: Some(mp as usize),
        }));
        assert(antes.marcos_ram@[i].pagina_id == Some(mp as usize)) by {
            assert(antes.marco_ocupado(i));
        }
        if i != fmp {
            // two occupied frames would carry the pair (pid, mp)
            assert(antes.marco_ocupado(i) && antes.marco_ocupado(fmp));
            assert(false);
        }
        assert(pgs_b[mp] == pgs_a[mp]);
    }
    // assemble the five clauses for idx + 1
    assert forall|m: int| 0 <= m < idx + 1 implies (#[trigger] pgs_b[m]).marco_id is Some by {
        if m < idx {
            assert(pgs_b[m] == pgs_a[m]);
        }
    }
    assert forall|m: int|
        0 <= m < idx + 1 implies !viejo.marco_ocupado(
        (#[trigger] pgs_b[m]).marco_id->0 as int,
    ) by {
        if m < idx {
            assert(pgs_b[m] == pgs_a[m]);
        }
    }
    assert forall|m1: int, m2: int|
        0 <= m1 < m2 < idx + 1 implies (#[trigger] pgs_b[m1]).marco_id->0 < (
    #[trigger] pgs_b[m2]).marco_id->0 by {
        if m2 < idx + 1 && m2 == idx {
            assert(pgs_b[m1] == pgs_a[m1]);
            assert(pgs_a[m1].marco_id->0 < t);
        } else {
            assert(pgs_b[m1] == pgs_a[m1]);
            assert(pgs_b[m2] == pgs_a[m2]);
        }
    }
    assert forall|m: int, i: int|
        #![trigger pgs_b[m], viejo.marcos_ram@[i]]
        0 <= m < idx + 1 && 0 <= i < pgs_b[m].marco_id->0 as int && !viejo.marco_ocupado(
            i,
        ) implies exists|m2: int|
        0 <= m2 < m && (#[trigger] pgs_b[m2]).marco_id->0 as int == i by {
        if m == idx {
            let m2 = choose|m2: int|
                0 <= m2 < idx + 1 && (#[trigger] pgs_b[m2]).marco_id->0 as int == i;
            assert(m2 < idx) by {
                if m2 == idx {
                    assert(pgs_b[idx as int].marco_id->0 as int == t);
                }
            }
        } else {
            assert(pgs_b[m] == pgs_a[m]);
            let m2 = choose|m2: int|
                0 <= m2 < m && (#[trigger] pgs_a[m2]).marco_id->0 as int == i;
            assert(pgs_b[m2] == pgs_a[m2]);
        }
    }
    assert forall|m: int|
        0 <= m < idx + 1 implies ahora.marcos_ram@[(
    #[trigger] pgs_b[m]).marco_id->0 as int] == (Marco {
        id: pgs_b[m].marco_id->0,
        proceso_id: Some(pid),
        pagina_id: Some(m as usize),
    }) by {
        if m < idx {
            assert(pgs_b[m] == pgs_a[m]);
            assert(pgs_a[m].marco_id->0 < t);
        }
    }
}

/// The swap entries that do not belong to this process, in their order.
pub open spec fn sin_pid(s: Seq<(usize, usize)>, pid: usize) -> Seq<(usize, usize)> {
    s.filter(|e: (usize, usize)| e.0 != pid)
}

/// One filtering step: the purge of a sequence extended by one entry keeps
/// the entry exactly when it belongs to another process.
proof fn lema_sin_pid_paso(s: Seq<(usize, usize)>, x: (usize, usize), pid: usize)
    ensures
        sin_pid(s.push(x), pid) == if x.0 != pid {
            sin_pid(s, pid).push(x)
        } else {
            sin_pid(s, pid)
        },
{
    reveal(Seq::filter);
    assert(s.push(x).drop_last() =~= s);
    assert(s.push(x).last() == x);
}

/// Removing the process at index `j` removes exactly its pid from the live
/// set and leaves every other process where a caller can still find it.
pub(crate) proof fn lema_remover_proceso(a: GestorMemoria, b: GestorMemoria, j: int)
    requires
        forall|j1: int, j2: int|
            0 <= j1 < j2 < a.procesos@.len() ==> (#[trigger] a.procesos@[j1]).pid
                != (#[trigger] a.procesos@[j2]).pid,
        0 <= j < a.procesos@.len(),
        b.procesos@ == a.procesos@.remove(j),
    ensures
        forall|q: usize| #[trigger]
            b.tiene_proceso(q) <==> (a.tiene_proceso(q) && q != a.procesos@[j].pid),
        forall|q: usize|
            #[trigger] b.tiene_proceso(q) ==> b.proceso_de(q) == a.proceso_de(q),
        forall|j1: int, j2: int|
            0 <= j1 < j2 < b.procesos@.len() ==> (#[trigger] b.procesos@[j1]).pid
                != (#[trigger] b.procesos@[j2]).pid,
{
    let pid = a.procesos@[j].pid;
    assert(forall|i: int|
        0 <= i < b.procesos@.len() ==> #[trigger] b.procesos@[i] == if i < j {
            a.procesos@[i]
        } else {
            a.procesos@[i + 1]
        });
    assert forall|q: usize| #[trigger]
        b.tiene_proceso(q) <==> (a.tiene_proceso(q) && q != pid) by {
        if b.tiene_proceso(q) {
            let i = b.idx_proceso(q);
            if i < j {
                assert(a.procesos@[i].pid == q);
            } else {
                assert(a.procesos@[i + 1].pid == q);
            }
            assert(a.tiene_proceso(q));
            if q == pid {
                if i < j {
                    assert(a.procesos@[i].pid != a.procesos@[j].pid);
                } else {
                    assert(a.procesos@[j].pid != a.procesos@[i + 1].pid);
                }
                assert(false);
            }
        }
        if a.tiene_proceso(q) && q != pid {
            let ia = a.idx_proceso(q);
            assert(ia != j);
            if ia < j {
                assert(b.procesos@[ia].pid == q);
            } else {
                assert(b.procesos@[ia - 1].pid == q);
            }
        }
    }
    assert forall|q: usize| #[trigger] b.tiene_proceso(q) implies b.proceso_de(q) == a.proceso_de(
        q,
    ) by {
        let ib = b.idx_proceso(q);
        let ia = a.idx_proceso(q);
        if ib < j {
            a.lema_indice_unico(q, ib);
        } else {
            a.lema_indice_unico(q, ib + 1);
        }
    }
}

/// A remainder by `m` of a value below `2 * m` either stands as it is or
/// loses one `m`.
pub proof fn lema_mod_rango(x: int, m: int)
    requires
        m > 0,
        0 <= x < 2 * m,
    ensures
        x % m == if x < m {
            x
        } else {
            x - m
        },
{
    if x < m {
        vstd::arithmetic::div_mod::lemma_small_mod(x as nat, m as nat);
    } else {
        vstd::arithmetic::div_mod::lemma_fundamental_div_mod_converse(x, m, 1, x - m);
    }
}

/// One wrap-around step of the clock pointer agrees with taking the whole
/// offset at once.
proof fn lema_mod_avance(p0: int, n: int, len: int)
    requires
        len > 0,
        0 <= p0 < len,
        1 <= n <= len,
    ensures
        ((p0 + n - 1) % len + 1) % len == (p0 + n) % len,
{
    lema_mod_rango(p0 + n - 1, len);
    lema_mod_rango(p0 + n, len);
    lema_mod_rango((p0 + n - 1) % len + 1, len);
}

/// Two distinct steps of one clock circuit land on two distinct frames.
proof fn lema_desplazado_inyectivo(a: GestorMemoria, k1: int, k2: int)
    requires
        a.bien_formado(),
        a.marcos_ram@.len() > 0,
        0 <= k1 < k2 < a.marcos_ram@.len(),
    ensures
        a.desplazado(k1) != a.desplazado(k2),
{
    let len = a.marcos_ram@.len() as int;
    lema_mod_rango(a.puntero_reloj + k1, len);
    lema_mod_rango(a.puntero_reloj + k2, len);
}

/// In two states whose processes share pids and page counts, the same ids
/// are live, the same pages are addressable, and each live id sits at the
/// same index.
pub(crate) proof fn lema_identidad_indices(a: GestorMemoria, b: GestorMemoria)
    requires
        identidad_procesos(a, b),
        forall|j1: int, j2: int|
            0 <= j1 < j2 < a.procesos@.len() ==> (#[trigger] a.procesos@[j1]).pid
                != (#[trigger] a.procesos@[j2]).pid,
    ensures
        forall|q: usize| #[trigger] b.tiene_proceso(q) <==> a.tiene_proceso(q),
        forall|q: usize|
            a.tiene_proceso(q) ==> #[trigger] b.idx_proceso(q) == a.idx_proceso(q),
        forall|q: usize, pg: usize| #[trigger]
            b.pagina_valida(q, pg) <==> a.pagina_valida(q, pg),
{
    assert forall|q: usize| #[trigger] b.tiene_proceso(q) <==> a.tiene_proceso(q) by {
        if a.tiene_proceso(q) {
            let j = a.idx_proceso(q);
            assert(b.procesos@[j].pid == q);
        }
        if b.tiene_proceso(q) {
            let j = b.idx_proceso(q);
            assert(a.procesos@[j].pid == q);
        }
    }
    assert forall|q: usize| a.tiene_proceso(q) implies #[trigger] b.idx_proceso(q)
        == a.idx_proceso(q) by {
        let ja = a.idx_proceso(q);
        assert(b.procesos@[ja].pid == q);
        b.lema_indice_unico(q, ja);
    }
    assert forall|q: usize, pg: usize| #[trigger]
        b.pagina_valida(q, pg) <==> a.pagina_valida(q, pg) by {
        if a.tiene_proceso(q) {
            let ja = a.idx_proceso(q);
            assert(b.procesos@[ja].paginas@.len() == a.procesos@[ja].paginas@.len());
        }
    }
}

/// Replacing one page of a live process with a page of the same id, the same
/// timestamp, a reference bit that can only drop, and a resident frame that
/// either stands or is withdrawn keeps the state well-formed and the change
/// bounded.
proof fn lema_wf_cambio_pagina(medio: GestorMemoria, nuevo: GestorMemoria, p: usize, g: usize)
    requires
        medio.bien_formado(),
        medio.pagina_valida(p, g),
        nuevo == (GestorMemoria { procesos: nuevo.procesos, ..medio }),
        nuevo.procesos@.len() == medio.procesos@.len(),
        ({
            let jm = medio.idx_proceso(p);
            let nueva = nuevo.procesos@[jm].paginas@[g as int];
            &&& forall|j2: int|
                0 <= j2 < medio.procesos@.len() && j2 != jm ==> nuevo.procesos@[j2]
                    == medio.procesos@[j2]
            &&& nuevo.procesos@[jm].pid == medio.procesos@[jm].pid
            &&& nuevo.procesos@[jm].nombre == medio.procesos@[jm].nombre
            &&& nuevo.procesos@[jm].tamano_kb == medio.procesos@[jm].tamano_kb
            &&& nuevo.procesos@[jm].color == medio.procesos@[jm].color
            &&& nuevo.procesos@[jm].paginas@ == medio.procesos@[jm].paginas@.update(
                g as int,
                nueva,
            )
            &&& nueva.id == medio.pagina_de(p, g).id
            &&& nueva.ultimo_uso == medio.pagina_de(p, g).ultimo_uso
            &&& (nueva.referenciada ==> medio.pagina_de(p, g).referenciada)
            &&& (nueva.marco_id == medio.pagina_de(p, g).marco_id || nueva.marco_id is None)
        }),
    ensures
        nuevo.bien_formado(),
        identidad_procesos(medio, nuevo),
        cambio_paginas_acotado(medio, nuevo),
        forall|q: usize| #[trigger] nuevo.tiene_proceso(q) <==> medio.tiene_proceso(q),
        forall|q: usize|
            medio.tiene_proceso(q) ==> #[trigger] nuevo.idx_proceso(q) == medio.idx_proceso(q),
{
    let jm = medio.idx_proceso(p);
    assert(identidad_procesos(medio, nuevo));
    lema_identidad_indices(medio, nuevo);
    assert(cambio_paginas_acotado(medio, nuevo));
    assert(nuevo.bien_formado());
}

/// A state differs from itself within the bounds of a replacement.
proof fn lema_cambio_refl(a: GestorMemoria)
    ensures
        identidad_procesos(a, a),
        cambio_paginas_acotado(a, a),
{
}

/// Bounded page changes compose.
proof fn lema_cambio_trans(a: GestorMemoria, b: GestorMemoria, c: GestorMemoria)
    requires
        identidad_procesos(a, b),
        identidad_procesos(b, c),
        cambio_paginas_acotado(a, b),
        cambio_paginas_acotado(b, c),
    ensures
        identidad_procesos(a, c),
        cambio_paginas_acotado(a, c),
{
    assert forall|j: int| #![trigger c.procesos@[j]] 0 <= j < a.procesos@.len() implies {
        let pa = a.procesos@[j];
        let pc = c.procesos@[j];
        &&& pc.pid == pa.pid
        &&& pc.nombre == pa.nombre
        &&& pc.tamano_kb == pa.tamano_kb
        &&& pc.color == pa.color
        &&& pc.paginas@.len() == pa.paginas@.len()
        &&& forall|k: int|
            #![trigger pc.paginas@[k]]
            0 <= k < pa.paginas@.len() ==> {
                let ga = pa.paginas@[k];
                let gc = pc.paginas@[k];
                &&& gc.id == ga.id
                &&& gc.ultimo_uso == ga.ultimo_uso
                &&& (gc.referenciada ==> ga.referenciada)
                &&& (gc.marco_id == ga.marco_id || gc.marco_id is None)
            }
    } by {
        assert(b.procesos@[j].pid == a.procesos@[j].pid);
        assert forall|k: int|
            #![trigger c.procesos@[j].paginas@[k]]
            0 <= k < a.procesos@[j].paginas@.len() implies {
            let ga = a.procesos@[j].paginas@[k];
            let gc = c.procesos@[j].paginas@[k];
            &&& gc.id == ga.id
            &&& gc.ultimo_uso == ga.ultimo_uso
            &&& (gc.referenciada ==> ga.referenciada)
            &&& (gc.marco_id == ga.marco_id || gc.marco_id is None)
        } by {
            assert(b.procesos@[j].paginas@[k].id == a.procesos@[j].paginas@[k].id);
        }
    }
}

/// A scan record is a bounded page change: bits only drop, frames stay.
proof fn lema_escaneadas_cambio(a: GestorMemoria, b: GestorMemoria, n: int)
    requires
        identidad_procesos(a, b),
        paginas_escaneadas(a, b, n),
    ensures
        cambio_paginas_acotado(a, b),
{
    assert forall|j: int, k: int|
        0 <= j < a.procesos@.len() && 0 <= k
            < a.procesos@[j].paginas@.len() implies #[trigger] b.procesos@[j].paginas@[k].id
        == a.procesos@[j].paginas@[k].id && b.procesos@[j].paginas@[k].ultimo_uso
        == a.procesos@[j].paginas@[k].ultimo_uso && (b.procesos@[j].paginas@[k].referenciada
        ==> a.procesos@[j].paginas@[k].referenciada) && (b.procesos@[j].paginas@[k].marco_id
        == a.procesos@[j].paginas@[k].marco_id) by {
        assert(b.procesos@[j].paginas@[k] == if escaneado(a, n, a.procesos@[j].pid, k as usize) {
            (Pagina { referenciada: false, ..a.procesos@[j].paginas@[k] })
        } else {
            a.procesos@[j].paginas@[k]
        });
    }
}

/// After a complete scan and the withdrawal of the victim's frame, every
/// page the scan visited shows a cleared reference bit.
proof fn lema_efecto_bits(
    viejo: GestorMemoria,
    tras: GestorMemoria,
    fin: GestorMemoria,
    nn: int,
    v: int,
)
    requires
        viejo.bien_formado(),
        viejo.escaneo_reloj(nn, v),
        identidad_procesos(viejo, tras),
        paginas_escaneadas(viejo, tras, nn),
        identidad_procesos(viejo, fin),
        forall|j: int, kk: int|
            0 <= j < viejo.procesos@.len() && 0 <= kk < viejo.procesos@[j].paginas@.len()
                ==> (#[trigger] fin.procesos@[j].paginas@[kk]).referenciada
                == tras.procesos@[j].paginas@[kk].referenciada,
    ensures
        forall|k: int|
            0 <= k < nn ==> {
                let i = #[trigger] viejo.desplazado(k);
                fin.pagina_de(
                    viejo.marcos_ram@[i].proceso_id->0,
                    viejo.marcos_ram@[i].pagina_id->0,
                ).referenciada == false
            },
{
    lema_identidad_indices(viejo, fin);
    assert forall|k: int| 0 <= k < nn implies {
        let i = #[trigger] viejo.desplazado(k);
        fin.pagina_de(
            viejo.marcos_ram@[i].proceso_id->0,
            viejo.marcos_ram@[i].pagina_id->0,
        ).referenciada == false
    } by {
        let i = viejo.desplazado(k);
        assert(viejo.reloj_da_paso(i));
        let p = viejo.marcos_ram@[i].proceso_id->0;
        let g = viejo.marcos_ram@[i].pagina_id->0;
        let jv = viejo.idx_proceso(p);
        assert(escaneado(viejo, nn, p, g)) by {
            assert((viejo.marcos_ram@[viejo.desplazado(k)]).proceso_id == Some(p)
                && viejo.marcos_ram@[viejo.desplazado(k)].pagina_id == Some(g));
        }
        assert(viejo.procesos@[jv].pid == p);
        assert(tras.procesos@[jv].paginas@[g as int] == (Pagina {
            referenciada: false,
            ..viejo.procesos@[jv].paginas@[g as int]
        }));
        assert(fin.procesos@[jv].paginas@[g as int].referenciada == false);
        assert(fin.idx_proceso(p) == jv);
    }
}

/// One clearing step of the clock scan: the visited frame's occupant page
/// gave up its reference bit, so the scan record grows by one step.
proof fn lema_escaneo_paso(
    viejo: GestorMemoria,
    medio: GestorMemoria,
    nuevo: GestorMemoria,
    n: int,
    p: usize,
    g: usize,
)
    requires
        viejo.bien_formado(),
        viejo.sin_marcos_libres(),
        viejo.marcos_ram@.len() > 0,
        0 <= n <= viejo.marcos_ram@.len(),
        medio == (GestorMemoria {
            procesos: medio.procesos,
            puntero_reloj: medio.puntero_reloj,
            ..viejo
        }),
        medio.bien_formado(),
        identidad_procesos(viejo, medio),
        paginas_escaneadas(viejo, medio, n),
        forall|k: int| 0 <= k < n ==> viejo.reloj_da_paso(#[trigger] viejo.desplazado(k)),
        medio.puntero_reloj as int == viejo.desplazado(n),
        viejo.marcos_ram@[viejo.desplazado(n)].proceso_id == Some(p),
        viejo.marcos_ram@[viejo.desplazado(n)].pagina_id == Some(g),
        medio.pagina_valida(p, g),
        medio.pagina_de(p, g).referenciada,
        // how `nuevo` came out of `medio`: the one page lost its bit
        nuevo == (GestorMemoria { procesos: nuevo.procesos, ..medio }),
        nuevo.procesos@.len() == medio.procesos@.len(),
        ({
            let jm = medio.idx_proceso(p);
            &&& forall|j2: int|
                0 <= j2 < medio.procesos@.len() && j2 != jm ==> nuevo.procesos@[j2]
                    == medio.procesos@[j2]
            &&& nuevo.procesos@[jm].pid == medio.procesos@[jm].pid
            &&& nuevo.procesos@[jm].nombre == medio.procesos@[jm].nombre
            &&& nuevo.procesos@[jm].tamano_kb == medio.procesos@[jm].tamano_kb
            &&& nuevo.procesos@[jm].color == medio.procesos@[jm].color
            &&& nuevo.procesos@[jm].paginas@ == medio.procesos@[jm].paginas@.update(
                g as int,
                (Pagina { referenciada: false, ..medio.pagina_de(p, g) }),
            )
        }),
    ensures
        n < viejo.marcos_ram@.len(),
        nuevo.bien_formado(),
        identidad_procesos(viejo, nuevo),
        paginas_escaneadas(viejo, nuevo, n + 1),
        forall|k: int| 0 <= k < n + 1 ==> viejo.reloj_da_paso(#[trigger] viejo.desplazado(k)),
        nuevo.puntero_reloj as int == viejo.desplazado(n),
{
    let len = viejo.marcos_ram@.len() as int;
    let i = viejo.desplazado(n);
    lema_mod_rango(viejo.puntero_reloj + n, len);
    assert(0 <= i < len);
    lema_identidad_indices(viejo, medio);
    let jv = viejo.idx_proceso(p);
    assert(medio.idx_proceso(p) == jv);
    // the visited page still carried its bit, so it was not yet scanned and
    // it agrees with the starting state
    assert(medio.procesos@[jv].paginas@[g as int] == medio.pagina_de(p, g));
    assert(viejo.procesos@[jv].pid == p);
    assert(!escaneado(viejo, n, p, g)) by {
        if escaneado(viejo, n, p, g) {
            assert(medio.procesos@[jv].paginas@[g as int] == (Pagina {
                referenciada: false,
                ..viejo.procesos@[jv].paginas@[g as int]
            }));
        }
    }
    assert(medio.pagina_de(p, g) == viejo.procesos@[jv].paginas@[g as int]);
    assert(viejo.pagina_de(p, g) == viejo.procesos@[jv].paginas@[g as int]);
    // the step is a lawful second chance in the starting state
    assert(viejo.marco_resoluble(i));
    assert(viejo.reloj_da_paso(i));
    // the scan has not wrapped yet: after a full circuit the first frame's
    // bit is already clear
    assert(n < len) by {
        if n == len {
            lema_mod_rango(viejo.puntero_reloj + 0, len);
            assert(viejo.desplazado(0) == viejo.puntero_reloj as int);
            assert(viejo.desplazado(n) == viejo.puntero_reloj as int);
            assert(escaneado(viejo, n, p, g)) by {
                assert((viejo.marcos_ram@[viejo.desplazado(0)]).proceso_id == Some(p)
                    && viejo.marcos_ram@[viejo.desplazado(0)].pagina_id == Some(g));
            }
        }
    }
    lema_wf_cambio_pagina(medio, nuevo, p, g);
    lema_identidad_indices(medio, nuevo);
    assert(identidad_procesos(viejo, nuevo));
    // the scan record with one more step describes `nuevo`
    assert forall|j: int, kk: int|
        0 <= j < viejo.procesos@.len() && 0 <= kk
            < viejo.procesos@[j].paginas@.len() implies #[trigger] nuevo.procesos@[j].paginas@[kk]
        == if escaneado(viejo, n + 1, viejo.procesos@[j].pid, kk as usize) {
        (Pagina { referenciada: false, ..viejo.procesos@[j].paginas@[kk] })
    } else {
        viejo.procesos@[j].paginas@[kk]
    } by {
        let q = viejo.procesos@[j].pid;
        if j == jv && kk == g as int {
            assert(escaneado(viejo, n + 1, q, kk as usize)) by {
                assert((viejo.marcos_ram@[viejo.desplazado(n)]).proceso_id == Some(q)
                    && viejo.marcos_ram@[viejo.desplazado(n)].pagina_id == Some(kk as usize));
            }
            assert(nuevo.procesos@[j].paginas@[kk] == (Pagina {
                referenciada: false,
                ..medio.pagina_de(p, g)
            }));
        } else {
            // the new step names the pair (p, g) alone, and every other pair
            // keeps its page
            assert(nuevo.procesos@[j].paginas@[kk] == medio.procesos@[j].paginas@[kk]);
            assert(escaneado(viejo, n + 1, q, kk as usize) == escaneado(
                viejo,
                n,
                q,
                kk as usize,
            )) by {
                if escaneado(viejo, n, q, kk as usize) {
                    let k = choose|k: int|
                        0 <= k < n && (#[trigger] viejo.marcos_ram@[viejo.desplazado(k)]).proceso_id
                            == Some(q) && viejo.marcos_ram@[viejo.desplazado(k)].pagina_id == Some(
                            kk as usize,
                        );
                    assert(0 <= k < n + 1);
                }
                if escaneado(viejo, n + 1, q, kk as usize) {
                    let k = choose|k: int|
                        0 <= k < n + 1 && (#[trigger] viejo.marcos_ram@[viejo.desplazado(
                            k,
                        )]).proceso_id == Some(q) && viejo.marcos_ram@[viejo.desplazado(
                            k,
                        )].pagina_id == Some(kk as usize);
                    if k == n {
                        // the pair at the new step is (p, g); a process index
                        // other than jv cannot carry pid p
                        assert(q == p && kk as usize == g);
                        assert(j == jv) by {
                            viejo.lema_indice_unico(p, j);
                        }
                        assert(false);
                    } else {
                        assert(escaneado(viejo, n, q, kk as usize));
                    }
                }
            }
        }
    }
    assert(paginas_escaneadas(viejo, nuevo, n + 1));
}

/// The clock scan stops: the frame under the pointer gives no second chance,
/// so the scan record so far, with the pointer's frame as victim, is a
/// complete scan.
proof fn lema_escaneo_fin(viejo: GestorMemoria, ahora: GestorMemoria, n: int)
    requires
        viejo.bien_formado(),
        viejo.sin_marcos_libres(),
        viejo.marcos_ram@.len() > 0,
        0 <= n <= viejo.marcos_ram@.len(),
        ahora == (GestorMemoria {
            procesos: ahora.procesos,
            puntero_reloj: ahora.puntero_reloj,
            ..viejo
        }),
        ahora.bien_formado(),
        identidad_procesos(viejo, ahora),
        paginas_escaneadas(viejo, ahora, n),
        forall|k: int| 0 <= k < n ==> viejo.reloj_da_paso(#[trigger] viejo.desplazado(k)),
        ahora.puntero_reloj as int == viejo.desplazado(n),
        !ahora.reloj_da_paso(ahora.puntero_reloj as int),
    ensures
        viejo.escaneo_reloj(n, ahora.puntero_reloj as int),
{
    let len = viejo.marcos_ram@.len() as int;
    let i = viejo.desplazado(n);
    lema_mod_rango(viejo.puntero_reloj + n, len);
    assert(0 <= i < len);
    lema_identidad_indices(viejo, ahora);
    if n < len {
        assert(!viejo.reloj_da_paso(i)) by {
            if viejo.reloj_da_paso(i) {
                let p = viejo.marcos_ram@[i].proceso_id->0;
                let g = viejo.marcos_ram@[i].pagina_id->0;
                let jv = viejo.idx_proceso(p);
                assert(ahora.pagina_valida(p, g));
                assert(ahora.marco_resoluble(i));
                // so the bit must be clear now, which only a scan step does
                assert(ahora.pagina_de(p, g) == ahora.procesos@[jv].paginas@[g as int]);
                assert(!ahora.pagina_de(p, g).referenciada);
                assert(escaneado(viejo, n, p, g));
                let k = choose|k: int|
                    0 <= k < n && (#[trigger] viejo.marcos_ram@[viejo.desplazado(k)]).proceso_id
                        == Some(p) && viejo.marcos_ram@[viejo.desplazado(k)].pagina_id == Some(g);
                // two frames of one circuit are distinct, yet both would hold
                // the pair (p, g)
                lema_desplazado_inyectivo(viejo, k, n);
                let i2 = viejo.desplazado(k);
                lema_mod_rango(viejo.puntero_reloj + k, len);
                assert(0 <= i2 < len && i2 != i);
                assert(viejo.marco_ocupado(i2) && viejo.marco_ocupado(i));
                assert(false);
            }
        }
    }
    assert(viejo.escaneo_reloj(n, i));
}

impl GestorMemoria {
    /// Builds a manager with `tamano_ram / tamano_pagina` free frames, an
    /// empty swap area and no processes, and logs one start-up entry.
    pub fn new(
        tamano_ram: usize,
        tamano_swap: usize,
        tamano_pagina: usize,
        algoritmo: AlgoritmoReemplazo,
    ) -> (r: GestorMemoria)
        requires
            tamano_pagina >= 1,
        ensures
            r.bien_formado(),
            r.consistente(),
            r.marcos_ram@.len() == tamano_ram as int / tamano_pagina as int,
            forall|i: int|
                0 <= i < r.marcos_ram@.len() ==> r.marcos_ram@[i] == (Marco {
                    id: i as usize,
                    proceso_id: None,
                    pagina_id: None,
                }),
            r.cola_swap@.len() == 0,
            r.procesos@.len() == 0,
            r.tamano_pagina_kb == tamano_pagina,
            r.algoritmo == algoritmo,
            r.puntero_reloj == 0,
            r.fallos_pagina == 0,
            r.accesos_totales == 0,
            r.swaps_realizados == 0,
            r.procesos_creados == 0,
            r.procesos_finalizados == 0,
            r.logs@.len() == 1,
    {
        let total_marcos = tamano_ram / tamano_pagina;
        let mut marcos: Vec<Marco> = Vec::new();
        for i in 0..total_marcos
            invariant
                marcos@.len() == i,
                forall|j: int|
                    0 <= j < i ==> marcos@[j] == (Marco {
                        id: j as usize,
                        proceso_id: None,
                        pagina_id: None,
                    }),
        {
            marcos.push(Marco { id: i, proceso_id: None, pagina_id: None });
        }

        let mut mensaje = String::from_str("[INICIO] Sistema iniciado - RAM: ");
        mensaje.append(decimal(tamano_ram).as_str());
        mensaje.append("KB | Swap: ");
        mensaje.append(decimal(tamano_swap).as_str());
        mensaje.append("KB | Pagina: ");
        mensaje.append(decimal(tamano_pagina).as_str());
        mensaje.append("KB");
        let mut logs: Vec<String> = Vec::new();
        logs.push(mensaje);

        GestorMemoria {
            marcos_ram: marcos,
            cola_swap: VecDeque::new(),
            procesos: Vec::new(),
            tamano_pagina_kb: tamano_pagina,
            logs,
            algoritmo,
            puntero_reloj: 0,
            fallos_pagina: 0,
            accesos_totales: 0,
            swaps_realizados: 0,
            procesos_creados: 0,
            procesos_finalizados: 0,
        }
    }

    /// Appends a message to the event log, dropping the oldest entry when the
    /// log is at capacity.
    pub fn registrar_log(&mut self, mensaje: &str)
        ensures
            igual_salvo_logs(*old(self), *final(self)),
            final(self).logs@.len() as int == if old(self).logs@.len() < CAPACIDAD_LOGS {
                old(self).logs@.len() + 1int
            } else {
                old(self).logs@.len() as int
            },
            old(self).logs@.len() < CAPACIDAD_LOGS ==> forall|i: int|
                0 <= i < old(self).logs@.len() ==> final(self).logs@[i] == old(self).logs@[i],
            old(self).logs@.len() >= CAPACIDAD_LOGS ==> forall|i: int|
                0 <= i && i + 1 < old(self).logs@.len() ==> final(self).logs@[i] == old(
                    self,
                ).logs@[i + 1],
            final(self).logs@.len() > 0 && final(self).logs@.last()@ == mensaje@,
    {
        if self.logs.len() >= CAPACIDAD_LOGS {
            self.logs.remove(0);
        }
        self.logs.push(mensaje.to_owned());
    }

    /// Counts the free frames of the table.
    pub fn contar_marcos_libres(&self) -> (r: usize)
        ensures
            r == cuenta_libres(self.marcos_ram@),
    {
        let mut cuenta: usize = 0;
        for i in 0..self.marcos_ram.len()
            invariant
                cuenta == cuenta_libres(self.marcos_ram@.subrange(0, i as int)),
                cuenta <= i,
        {
            proof {
                assert(self.marcos_ram@.subrange(0, i + 1).drop_last() =~= self.marcos_ram@
                    .subrange(0, i as int));
                assert(self.marcos_ram@.subrange(0, i + 1).last() == self.marcos_ram@[i as int]);
            }
            if self.marcos_ram[i].proceso_id.is_none() {
                cuenta += 1;
            }
        }
        proof {
            assert(self.marcos_ram@.subrange(0, self.marcos_ram@.len() as int) =~= self
                .marcos_ram@);
        }
        cuenta
    }

    /// Advances the pointer shared by FIFO and Clock one frame, wrapping
    /// around the table.
    pub fn avanzar_reloj(&mut self)
        requires
            old(self).marcos_ram@.len() > 0 ==> old(self).puntero_reloj < old(
                self,
            ).marcos_ram@.len(),
        ensures
            *final(self) == (GestorMemoria {
                puntero_reloj: final(self).puntero_reloj,
                ..*old(self)
            }),
            old(self).marcos_ram@.len() > 0 ==> final(self).puntero_reloj as int == (old(
                self,
            ).puntero_reloj + 1) % (old(self).marcos_ram@.len() as int),
            old(self).marcos_ram@.len() == 0 ==> final(self).puntero_reloj == old(
                self,
            ).puntero_reloj,
    {
        let len = self.marcos_ram.len();
        if len > 0 {
            self.puntero_reloj = (self.puntero_reloj + 1) % len;
        }
    }

    /// Whether a live process with this id exists.
    pub fn proceso_vivo(&self, pid: usize) -> (r: bool)
        ensures
            r == self.tiene_proceso(pid),
    {
        let mut j: usize = 0;
        while j < self.procesos.len()
            invariant
                0 <= j <= self.procesos@.len(),
                forall|j2: int| 0 <= j2 < j ==> (#[trigger] self.procesos@[j2]).pid != pid,
            decreases self.procesos@.len() - j,
        {
            if self.procesos[j].pid == pid {
                return true;
            }
            j += 1;
        }
        false
    }

    /// Whether this id occurs anywhere in the manager: as a live process, as
    /// the occupant of a frame, or in the swap area. Admission requires a
    /// fresh id, and a caller can check with this.
    pub fn contiene_pid(&self, pid: usize) -> (r: bool)
        ensures
            r == self.pid_presente(pid),
    {
        if self.proceso_vivo(pid) {
            return true;
        }
        let mut i: usize = 0;
        while i < self.marcos_ram.len()
            invariant
                0 <= i <= self.marcos_ram@.len(),
                forall|i2: int|
                    0 <= i2 < i ==> (#[trigger] self.marcos_ram@[i2]).proceso_id != Some(pid),
            decreases self.marcos_ram@.len() - i,
        {
            match self.marcos_ram[i].proceso_id {
                Some(p) => {
                    if p == pid {
                        return true;
                    }
                },
                None => {},
            }
            i += 1;
        }
        let mut s: usize = 0;
        while s < self.cola_swap.len()
            invariant
                0 <= s <= self.cola_swap@.len(),
                forall|s2: int| 0 <= s2 < s ==> (#[trigger] self.cola_swap@[s2]).0 != pid,
            decreases self.cola_swap@.len() - s,
        {
            if self.cola_swap[s].0 == pid {
                return true;
            }
            s += 1;
        }
        false
    }

    /// Looks a page up by process id and page index, as the page tables
    /// record it.
    pub fn obtener_info_pagina(&self, pid: usize, idx_pagina: usize) -> (r: Option<Pagina>)
        requires
            self.bien_formado(),
        ensures
            r == if self.pagina_valida(pid, idx_pagina) {
                Some(self.pagina_de(pid, idx_pagina))
            } else {
                None::<Pagina>
            },
    {
        let mut j: usize = 0;
        while j < self.procesos.len()
            invariant
                self.bien_formado(),
                0 <= j <= self.procesos@.len(),
                forall|j2: int| 0 <= j2 < j ==> (#[trigger] self.procesos@[j2]).pid != pid,
            decreases self.procesos@.len() - j,
        {
            if self.procesos[j].pid == pid {
                proof {
                    assert(self.tiene_proceso(pid));
                    self.lema_indice_unico(pid, j as int);
                }
                if idx_pagina < self.procesos[j].paginas.len() {
                    return Some(self.procesos[j].paginas[idx_pagina]);
                } else {
                    return None;
                }
            }
            j += 1;
        }
        None
    }

    /// With unique live pids, the chosen process index for a pid that frame
    /// `j` exhibits is `j` itself.
    proof fn lema_indice_unico(&self, pid: usize, j: int)
        requires
            forall|j1: int, j2: int|
                0 <= j1 < j2 < self.procesos@.len() ==> (#[trigger] self.procesos@[j1]).pid
                    != (#[trigger] self.procesos@[j2]).pid,
            0 <= j < self.procesos@.len(),
            self.procesos@[j].pid == pid,
        ensures
            self.tiene_proceso(pid),
            self.idx_proceso(pid) == j,
            self.proceso_de(pid) == self.procesos@[j],
    {
        assert(self.tiene_proceso(pid));
        let jj = self.idx_proceso(pid);
        if jj != j {
            if jj < j {
                assert(self.procesos@[jj].pid != self.procesos@[j].pid);
            } else {
                assert(self.procesos@[j].pid != self.procesos@[jj].pid);
            }
        }
    }

    /// Finds the index of the live process with this id.
    fn indice_proceso_vivo(&self, pid: usize) -> (r: usize)
        requires
            self.bien_formado(),
            self.tiene_proceso(pid),
        ensures
            r as int == self.idx_proceso(pid),
            r < self.procesos@.len(),
            self.procesos@[r as int].pid == pid,
    {
        let mut j: usize = 0;
        while j < self.procesos.len()
            invariant
                self.bien_formado(),
                self.tiene_proceso(pid),
                0 <= j <= self.procesos@.len(),
                forall|j2: int| 0 <= j2 < j ==> (#[trigger] self.procesos@[j2]).pid != pid,
            decreases self.procesos@.len() - j,
        {
            if self.procesos[j].pid == pid {
                proof {
                    self.lema_indice_unico(pid, j as int);
                }
                return j;
            }
            j += 1;
        }
        proof {
            let jj = self.idx_proceso(pid);
            assert(self.procesos@[jj].pid == pid);
            assert(false);
        }
        0
    }

    /// Replaces the page `pg` of the live process `pid`, leaving every other
    /// page and every other field of the process alone.
    fn poner_pagina(&mut self, pid: usize, pg: usize, pagina: Pagina)
        requires
            old(self).bien_formado(),
            old(self).pagina_valida(pid, pg),
        ensures
            *final(self) == (GestorMemoria { procesos: final(self).procesos, ..*old(self) }),
            final(self).procesos@.len() == old(self).procesos@.len(),
            ({
                let j = old(self).idx_proceso(pid);
                let pa = old(self).procesos@[j];
                &&& forall|j2: int|
                    0 <= j2 < old(self).procesos@.len() && j2 != j ==> final(self).procesos@[j2]
                        == old(self).procesos@[j2]
                &&& final(self).procesos@[j].pid == pa.pid
                &&& final(self).procesos@[j].nombre == pa.nombre
                &&& final(self).procesos@[j].tamano_kb == pa.tamano_kb
                &&& final(self).procesos@[j].color == pa.color
                &&& final(self).procesos@[j].paginas@ == pa.paginas@.update(pg as int, pagina)
                &&& final(self).tiene_proceso(pid)
                &&& final(self).idx_proceso(pid) == j
                &&& final(self).pagina_valida(pid, pg)
                &&& final(self).pagina_de(pid, pg) == pagina
            }),
    {
        let j = self.indice_proceso_vivo(pid);
        self.procesos[j].paginas.set(pg, pagina);
        proof {
            assert(forall|j2: int|
                0 <= j2 < self.procesos@.len() ==> (#[trigger] self.procesos@[j2]).pid == old(
                    self,
                ).procesos@[j2].pid);
            self.lema_indice_unico(pid, j as int);
        }
    }

    /// Selects a victim frame with the active policy, marks its occupant page
    /// non-resident and moves the pair to the swap area. When the swap area
    /// is already at capacity the call fails: the swap area stays as it is
    /// and the victim frame keeps its occupant, though the victim's page is
    /// already marked non-resident and, under Clock, the scanned reference
    /// bits stay cleared and the pointer rests on the victim.
    #[verifier::rlimit(100)]
    pub fn reemplazar_pagina(&mut self) -> (r: Result<usize, String>)
        requires
            old(self).bien_formado(),
            old(self).marcos_ram@.len() > 0,
            old(self).sin_marcos_libres(),
            old(self).swaps_realizados < old(self).accesos_totales,
        ensures
            final(self).bien_formado(),
            final(self).marcos_ram == old(self).marcos_ram,
            final(self).accesos_totales == old(self).accesos_totales,
            final(self).fallos_pagina == old(self).fallos_pagina,
            final(self).procesos_creados == old(self).procesos_creados,
            final(self).procesos_finalizados == old(self).procesos_finalizados,
            final(self).algoritmo == old(self).algoritmo,
            final(self).tamano_pagina_kb == old(self).tamano_pagina_kb,
            cambio_paginas_acotado(*old(self), *final(self)),
            r is Ok <==> old(self).cola_swap@.len() < CAPACIDAD_SWAP,
            match r {
                Ok(v) => {
                    &&& efecto_seleccion(*old(self), *final(self), v as int)
                    &&& final(self).cola_swap@ == old(self).cola_swap@.push(
                        ((
                            old(self).marcos_ram@[v as int].proceso_id->0,
                            old(self).marcos_ram@[v as int].pagina_id->0,
                        )),
                    )
                    &&& final(self).swaps_realizados == old(self).swaps_realizados + 1
                    &&& final(self).logs@.len() as int == if old(self).logs@.len()
                        < CAPACIDAD_LOGS {
                        old(self).logs@.len() + 1int
                    } else {
                        old(self).logs@.len() as int
                    }
                    &&& final(self).logs@.len() > 0
                    &&& final(self).logs@.last()@ == mensaje_eviccion(
                        old(self).marcos_ram@[v as int].proceso_id->0,
                        old(self).marcos_ram@[v as int].pagina_id->0,
                        v,
                    )
                },
                Err(e) => {
                    &&& (exists|v: int| efecto_seleccion(*old(self), *final(self), v))
                    &&& final(self).cola_swap@ == old(self).cola_swap@
                    &&& final(self).swaps_realizados == old(self).swaps_realizados
                    &&& final(self).logs == old(self).logs
                    &&& e@ == "[ERROR] Swap lleno (50 paginas MAX)"@
                },
            },
    {
        let ghost viejo = *self;
        let len = self.marcos_ram.len();
        let idx_victima: usize;
        match self.algoritmo {
            AlgoritmoReemplazo::FIFO => {
                idx_victima = self.puntero_reloj;
            },
            AlgoritmoReemplazo::LRU => {
                let mut min_uso: u64 = u64::MAX;
                let mut idx_v: usize = 0;
                let mut i: usize = 0;
                while i < len
                    invariant
                        *self == viejo,
                        self.bien_formado(),
                        len == self.marcos_ram@.len(),
                        len > 0,
                        0 <= i <= len,
                        0 <= idx_v < len,
                        min_uso < u64::MAX ==> {
                            &&& idx_v < i
                            &&& self.marco_resoluble(idx_v as int)
                            &&& self.uso_del_marco(idx_v as int) == min_uso
                            &&& forall|k: int|
                                0 <= k < i && self.marco_resoluble(k) ==> min_uso
                                    <= #[trigger] self.uso_del_marco(k)
                            &&& forall|k: int|
                                0 <= k < idx_v && self.marco_resoluble(k) ==> min_uso
                                    < #[trigger] self.uso_del_marco(k)
                        },
                        min_uso == u64::MAX ==> idx_v == 0 && (forall|k: int|
                            0 <= k < i && self.marco_resoluble(k) ==> #[trigger] self.uso_del_marco(
                                k,
                            ) == u64::MAX),
                    decreases len - i,
                {
                    let marco = self.marcos_ram[i];
                    if let (Some(p), Some(g)) = (marco.proceso_id, marco.pagina_id) {
                        if let Some(pagina) = self.obtener_info_pagina(p, g) {
                            if pagina.ultimo_uso < min_uso {
                                min_uso = pagina.ultimo_uso;
                                idx_v = i;
                            }
                        }
                    }
                    i += 1;
                }
                idx_victima = idx_v;
                proof {
                    if min_uso < u64::MAX {
                        assert(viejo.hay_resoluble_con_uso());
                    } else {
                        assert(forall|k: int|
                            0 <= k < viejo.marcos_ram@.len() && viejo.marco_resoluble(k)
                                ==> #[trigger] viejo.uso_del_marco(k) == u64::MAX);
                        assert(!viejo.hay_resoluble_con_uso());
                    }
                    assert(viejo.es_victima_lru(idx_victima as int));
                }
            },
            AlgoritmoReemplazo::Reloj => {
                let ghost mut n: int = 0;
                proof {
                    lema_mod_rango(viejo.puntero_reloj + 0, len as int);
                }
                loop
                    invariant
                        self.bien_formado(),
                        *self == (GestorMemoria {
                            procesos: self.procesos,
                            puntero_reloj: self.puntero_reloj,
                            ..viejo
                        }),
                        viejo.bien_formado(),
                        viejo.sin_marcos_libres(),
                        viejo.algoritmo is Reloj,
                        len == viejo.marcos_ram@.len(),
                        len > 0,
                        0 <= n <= len,
                        self.puntero_reloj as int == viejo.desplazado(n),
                        forall|k: int|
                            0 <= k < n ==> viejo.reloj_da_paso(#[trigger] viejo.desplazado(k)),
                        identidad_procesos(viejo, *self),
                        paginas_escaneadas(viejo, *self, n),
                    ensures
                        self.bien_formado(),
                        *self == (GestorMemoria {
                            procesos: self.procesos,
                            puntero_reloj: self.puntero_reloj,
                            ..viejo
                        }),
                        identidad_procesos(viejo, *self),
                        exists|nn: int|
                            #[trigger] viejo.escaneo_reloj(nn, self.puntero_reloj as int)
                                && paginas_escaneadas(viejo, *self, nn),
                    decreases len - n,
                {
                    let idx = self.puntero_reloj;
                    let marco = self.marcos_ram[idx];
                    let p = marco.proceso_id.unwrap();
                    let g = marco.pagina_id.unwrap();
                    let mut es_victima = false;
                    match self.obtener_info_pagina(p, g) {
                        Some(pagina) => {
                            if pagina.referenciada {
                                let ghost medio = *self;
                                self.poner_pagina(p, g, Pagina { referenciada: false, ..pagina });
                                proof {
                                    lema_escaneo_paso(viejo, medio, *self, n, p, g);
                                    n = n + 1;
                                }
                                self.avanzar_reloj();
                                proof {
                                    lema_mod_avance(viejo.puntero_reloj as int, n, len as int);
                                }
                            } else {
                                es_victima = true;
                            }
                        },
                        None => {
                            // The occupant's process is not live (a leftover of an
                            // aborted admission): it holds no second chance.
                            es_victima = true;
                        },
                    }
                    if es_victima {
                        proof {
                            lema_escaneo_fin(viejo, *self, n);
                        }
                        break ;
                    }
                }
                idx_victima = self.puntero_reloj;
            },
        }
        let ghost tras_sel = *self;
        proof {
            assert(viejo.seleccion_victima(idx_victima as int));
            assert((idx_victima as int) < viejo.marcos_ram@.len());
            assert(viejo.marco_ocupado(idx_victima as int));
            if viejo.algoritmo is Reloj {
                let nn = choose|nn: int|
                    viejo.escaneo_reloj(nn, tras_sel.puntero_reloj as int) && paginas_escaneadas(
                        viejo,
                        tras_sel,
                        nn,
                    );
                lema_escaneadas_cambio(viejo, tras_sel, nn);
            } else {
                assert(tras_sel == viejo);
                lema_cambio_refl(viejo);
            }
            lema_identidad_indices(viejo, tras_sel);
        }
        let marco_v = self.marcos_ram[idx_victima];
        let pid_v = marco_v.proceso_id.unwrap();
        let pag_v = marco_v.pagina_id.unwrap();
        match self.obtener_info_pagina(pid_v, pag_v) {
            Some(pagina) => {
                self.poner_pagina(pid_v, pag_v, Pagina { marco_id: None, ..pagina });
                proof {
                    lema_wf_cambio_pagina(tras_sel, *self, pid_v, pag_v);
                    lema_cambio_trans(viejo, tras_sel, *self);
                    // the one replaced page kept its reference bit
                    let jm = tras_sel.idx_proceso(pid_v);
                    assert(forall|j: int, kk: int|
                        0 <= j < viejo.procesos@.len() && 0 <= kk
                            < viejo.procesos@[j].paginas@.len()
                            ==> (#[trigger] self.procesos@[j].paginas@[kk]).referenciada
                            == tras_sel.procesos@[j].paginas@[kk].referenciada);
                }
            },
            None => {
                proof {
                    // the occupant's process is not live, so no page table
                    // names this pair
                    assert(!viejo.pagina_valida(pid_v, pag_v));
                    assert(!viejo.tiene_proceso(pid_v));
                }
            },
        }
        let ghost tras_clear = *self;
        proof {
            assert(tras_clear.bien_formado());
            assert(identidad_procesos(viejo, tras_clear));
            assert(cambio_paginas_acotado(viejo, tras_clear));
            assert(tras_clear.cola_swap@ == viejo.cola_swap@);
            assert(viejo.tiene_proceso(pid_v) ==> tras_clear.pagina_de(
                pid_v,
                pag_v,
            ).marco_id is None);
            assert(efecto_seleccion(viejo, tras_clear, idx_victima as int)) by {
                if viejo.algoritmo is Reloj {
                    let nn = choose|nn: int|
                        viejo.escaneo_reloj(nn, tras_sel.puntero_reloj as int)
                            && paginas_escaneadas(viejo, tras_sel, nn);
                    lema_efecto_bits(viejo, tras_sel, tras_clear, nn, idx_victima as int);
                }
            }
        }
        if self.cola_swap.len() >= CAPACIDAD_SWAP {
            return Err(String::from_str("[ERROR] Swap lleno (50 paginas MAX)"));
        }
        self.cola_swap.push_back((pid_v, pag_v));
        self.swaps_realizados = self.swaps_realizados + 1;
        proof {
            assert forall|s: int|
                0 <= s < self.cola_swap@.len() && self.tiene_proceso(
                    (#[trigger] self.cola_swap@[s]).0,
                ) implies {
                &&& self.pagina_valida(self.cola_swap@[s].0, self.cola_swap@[s].1)
                &&& self.pagina_de(self.cola_swap@[s].0, self.cola_swap@[s].1).marco_id is None
            } by {
                if s < viejo.cola_swap@.len() {
                    assert(tras_clear.tiene_proceso(self.cola_swap@[s].0));
                } else {
                    assert(self.cola_swap@[s] == (pid_v, pag_v));
                }
            }
            assert(self.bien_formado());
        }
        let mut mensaje = String::from_str("[SWAP] Proceso P");
        mensaje.append(decimal(pid_v).as_str());
        mensaje.append(" Pagina ");
        mensaje.append(decimal(pag_v).as_str());
        mensaje.append(" movida a Swap (Marco ");
        mensaje.append(decimal(idx_victima).as_str());
        mensaje.append(" liberado)");
        proof {
            assert(mensaje@ == mensaje_eviccion(pid_v, pag_v, idx_victima));
        }
        self.registrar_log(mensaje.as_str());
        proof {
            assert(efecto_seleccion(viejo, *self, idx_victima as int));
            assert(cambio_paginas_acotado(viejo, *self));
        }
        Ok(idx_victima)
    }

    /// Writes `(pid, pg)` into frame `t` and, when the process is live,
    /// stamps its page resident there with the given timestamp.
    #[verifier::rlimit(100)]
    fn instalar_pagina(&mut self, pid: usize, pg: usize, t: usize, tiempo: u64)
        requires
            old(self).bien_formado(),
            t < old(self).marcos_ram@.len(),
            // no page of a live process still claims the target frame
            forall|j: int, k: int|
                0 <= j < old(self).procesos@.len() && 0 <= k < (#[trigger] old(
                    self,
                ).procesos@[j]).paginas@.len() ==> (#[trigger] old(
                    self,
                ).procesos@[j].paginas@[k]).marco_id != Some(t),
            // no frame holds the pair being loaded
            forall|i: int|
                0 <= i < old(self).marcos_ram@.len() ==> !((#[trigger] old(
                    self,
                ).marcos_ram@[i]).proceso_id == Some(pid) && old(self).marcos_ram@[i].pagina_id
                    == Some(pg)),
            old(self).tiene_proceso(pid) ==> pg < old(self).proceso_de(pid).paginas@.len(),
            old(self).tiene_proceso(pid) ==> forall|s: int|
                0 <= s < old(self).cola_swap@.len() ==> #[trigger] old(self).cola_swap@[s] != (
                pid,
                pg,
                ),
        ensures
            final(self).bien_formado(),
            *final(self) == (GestorMemoria {
                marcos_ram: final(self).marcos_ram,
                procesos: final(self).procesos,
                ..*old(self)
            }),
            final(self).marcos_ram@ == old(self).marcos_ram@.update(
                t as int,
                (Marco { id: t, proceso_id: Some(pid), pagina_id: Some(pg) }),
            ),
            identidad_procesos(*old(self), *final(self)),
            !old(self).tiene_proceso(pid) ==> final(self).procesos == old(self).procesos,
            old(self).tiene_proceso(pid) ==> {
                let j = old(self).idx_proceso(pid);
                let estampada = (Pagina {
                    id: pg,
                    marco_id: Some(t),
                    referenciada: true,
                    ultimo_uso: tiempo,
                });
                &&& forall|j2: int|
                    0 <= j2 < old(self).procesos@.len() && j2 != j ==> final(self).procesos@[j2]
                        == old(self).procesos@[j2]
                &&& final(self).procesos@[j].paginas@ == old(self).procesos@[j].paginas@.update(
                    pg as int,
                    estampada,
                )
                &&& final(self).pagina_de(pid, pg) == estampada
            },
    {
        let mut m = self.marcos_ram[t];
        m.proceso_id = Some(pid);
        m.pagina_id = Some(pg);
        self.marcos_ram.set(t, m);
        proof {
            assert(self.marcos_ram@ == old(self).marcos_ram@.update(
                t as int,
                (Marco { id: t, proceso_id: Some(pid), pagina_id: Some(pg) }),
            )) by {
                assert(old(self).marcos_ram@[t as int].id == t);
            }
            assert(identidad_procesos(*old(self), *self));
            lema_identidad_indices(*old(self), *self);
            assert(self.bien_formado());
        }
        match self.obtener_info_pagina(pid, pg) {
            Some(pagina) => {
                self.poner_pagina(
                    pid,
                    pg,
                    Pagina { id: pagina.id, marco_id: Some(t), referenciada: true, ultimo_uso: tiempo },
                );
                proof {
                    assert(old(self).pagina_de(pid, pg).id == pg);
                    assert(self.bien_formado());
                }
            },
            None => {},
        }
    }

    /// Loads page `pg` of process `pid` into memory, counting the access and
    /// stamping the page's table entry. The lowest-indexed free frame is
    /// preferred; when none is free the access is a fault and the active
    /// policy evicts a resident page to the swap area. Fails exactly when a
    /// fault meets a full swap area; the frame table is then untouched.
    #[verifier::rlimit(100)]
    #[verifier::spinoff_prover]
    pub fn cargar_pagina(&mut self, pid: usize, idx_pagina: usize) -> (r: Result<(), String>)
        requires
            old(self).bien_formado(),
            old(self).marcos_ram@.len() > 0,
            old(self).accesos_totales < usize::MAX,
            forall|i: int|
                0 <= i < old(self).marcos_ram@.len() ==> !((#[trigger] old(
                    self,
                ).marcos_ram@[i]).proceso_id == Some(pid) && old(self).marcos_ram@[i].pagina_id
                    == Some(idx_pagina)),
            old(self).tiene_proceso(pid) ==> idx_pagina < old(self).proceso_de(
                pid,
            ).paginas@.len(),
            old(self).tiene_proceso(pid) ==> forall|s: int|
                0 <= s < old(self).cola_swap@.len() ==> #[trigger] old(self).cola_swap@[s] != (
                pid,
                idx_pagina,
                ),
        ensures
            final(self).bien_formado(),
            final(self).accesos_totales == old(self).accesos_totales + 1,
            final(self).procesos_creados == old(self).procesos_creados,
            final(self).procesos_finalizados == old(self).procesos_finalizados,
            final(self).algoritmo == old(self).algoritmo,
            final(self).tamano_pagina_kb == old(self).tamano_pagina_kb,
            identidad_procesos(*old(self), *final(self)),
            r is Ok <==> (!old(self).sin_marcos_libres() || old(self).cola_swap@.len()
                < CAPACIDAD_SWAP),
            // a successful load keeps the two-way frame mapping
            old(self).consistente() && old(self).tiene_proceso(pid) && r is Ok ==> final(self).consistente(),
            // every page but the loaded one changes only within replacement
            // bounds
            forall|j: int, kk: int|
                #![trigger final(self).procesos@[j].paginas@[kk]]
                0 <= j < old(self).procesos@.len() && 0 <= kk < old(
                    self,
                ).procesos@[j].paginas@.len() && !(old(self).procesos@[j].pid == pid && kk
                    == idx_pagina as int) ==> {
                    let ga = old(self).procesos@[j].paginas@[kk];
                    let gb = final(self).procesos@[j].paginas@[kk];
                    &&& gb.id == ga.id
                    &&& gb.ultimo_uso == ga.ultimo_uso
                    &&& (gb.referenciada ==> ga.referenciada)
                    &&& (gb.marco_id == ga.marco_id || gb.marco_id is None)
                },
            match r {
                Ok(_) => exists|t: int|
                    #[trigger] carga_correcta(*old(self), *final(self), pid, idx_pagina, t),
                Err(e) => {
                    &&& final(self).marcos_ram == old(self).marcos_ram
                    &&& final(self).fallos_pagina == old(self).fallos_pagina + 1
                    &&& final(self).cola_swap@ == old(self).cola_swap@
                    &&& final(self).swaps_realizados == old(self).swaps_realizados
                    &&& final(self).logs == old(self).logs
                    &&& e@ == "[ERROR] Swap lleno (50 paginas MAX)"@
                    &&& cambio_paginas_acotado(*old(self), *final(self))
                    &&& (!(old(self).algoritmo is Reloj) ==> final(self).puntero_reloj == old(
                        self,
                    ).puntero_reloj)
                    &&& (exists|v: int|
                        efecto_seleccion(
                            con_acceso_contado(*old(self), true),
                            *final(self),
                            v,
                        ))
                },
            },
    {
        let ghost viejo = *self;
        self.accesos_totales = self.accesos_totales + 1;
        let tiempo_acceso = self.accesos_totales as u64;
        let len = self.marcos_ram.len();
        let mut libre: Option<usize> = None;
        let mut i: usize = 0;
        while i < len
            invariant
                *self == (GestorMemoria {
                    accesos_totales: self.accesos_totales,
                    ..viejo
                }),
                self.accesos_totales == viejo.accesos_totales + 1,
                len == self.marcos_ram@.len(),
                0 <= i <= len,
                libre is None ==> forall|i2: int| 0 <= i2 < i ==> self.marco_ocupado(i2),
                libre is Some ==> {
                    let f = libre->0 as int;
                    &&& 0 <= f < len
                    &&& !self.marco_ocupado(f)
                    &&& forall|i2: int| 0 <= i2 < f ==> self.marco_ocupado(i2)
                },
            decreases len - i,
        {
            if libre.is_none() && self.marcos_ram[i].proceso_id.is_none() {
                libre = Some(i);
            }
            i += 1;
        }
        let idx_objetivo: usize;
        let ghost hubo_fallo: bool;
        match libre {
            Some(f) => {
                idx_objetivo = f;
                proof {
                    hubo_fallo = false;
                    assert forall|i2: int| 0 <= i2 < f as int implies viejo.marco_ocupado(i2) by {
                        assert(self.marco_ocupado(i2));
                    }
                    assert(!viejo.sin_marcos_libres());
                }
            },
            None => {
                proof {
                    assert forall|i2: int|
                        0 <= i2 < viejo.marcos_ram@.len() implies viejo.marco_ocupado(i2) by {
                        assert(self.marco_ocupado(i2));
                    }
                    assert(viejo.sin_marcos_libres());
                    hubo_fallo = true;
                }
                self.fallos_pagina = self.fallos_pagina + 1;
                proof {
                    assert(*self == con_acceso_contado(viejo, true));
                    assert(self.bien_formado());
                }
                match self.reemplazar_pagina() {
                    Ok(v) => {
                        idx_objetivo = v;
                    },
                    Err(e) => {
                        proof {
                            lema_cambio_refl(viejo);
                        }
                        return Err(e);
                    },
                }
            },
        }
        let ghost tras_pol = *self;
        proof {
            assert(identidad_procesos(viejo, tras_pol) && tras_pol.bien_formado()) by {
                if !hubo_fallo {
                    assert(tras_pol == con_acceso_contado(viejo, false));
                }
            }
            lema_identidad_indices(viejo, tras_pol);
            // no page of a live process still claims the target frame
            assert forall|j: int, k: int|
                0 <= j < tras_pol.procesos@.len() && 0 <= k
                    < tras_pol.procesos@[j].paginas@.len() implies (#[trigger] tras_pol
                .procesos@[j].paginas@[k]).marco_id != Some(idx_objetivo) by {
                if tras_pol.procesos@[j].paginas@[k].marco_id == Some(idx_objetivo) {
                    // its frame points back at this very page, so the frame is
                    // occupied by its pair, which the victim clearing undid
                    let pv = tras_pol.marcos_ram@[idx_objetivo as int].proceso_id->0;
                    assert(tras_pol.marcos_ram@[idx_objetivo as int].proceso_id == Some(
                        tras_pol.procesos@[j].pid,
                    ));
                    assert(tras_pol.marco_ocupado(idx_objetivo as int));
                    assert(hubo_fallo) by {
                        if !hubo_fallo {
                            assert(!viejo.marco_ocupado(idx_objetivo as int));
                        }
                    }
                    assert(tras_pol.tiene_proceso(pv));
                    tras_pol.lema_indice_unico(pv, j);
                    assert(tras_pol.pagina_de(pv, tras_pol.marcos_ram@[idx_objetivo as int].pagina_id->0).marco_id is None);
                    assert(false);
                }
            }
        }
        self.instalar_pagina(pid, idx_pagina, idx_objetivo, tiempo_acceso);
        if self.algoritmo == AlgoritmoReemplazo::FIFO {
            self.avanzar_reloj();
        }
        proof {
            assert(carga_correcta(viejo, *self, pid, idx_pagina, idx_objetivo as int));
            if viejo.consistente() && viejo.tiene_proceso(pid) {
                assert(identidad_procesos(viejo, *self));
                crate::leyes::lema_carga_conserva_consistencia(
                    viejo,
                    *self,
                    pid,
                    idx_pagina,
                    idx_objetivo as int,
                );
            }
        }
        Ok(())
    }

    /// Admits a process: builds its page table (`ceil(size / page size)`
    /// pages), counts and logs the admission, and loads every page in index
    /// order. When a load fails on a full swap area the admission aborts:
    /// the error is logged, the process is not live afterwards, and frames
    /// already given to its earlier pages stay occupied by it — a leak this
    /// simulation keeps on purpose, as the terminate path can no longer
    /// reach them.
    #[verifier::rlimit(100)]
    #[verifier::spinoff_prover]
    pub fn asignar_proceso(&mut self, proceso: Proceso)
        requires
            old(self).bien_formado(),
            old(self).procesos_creados < usize::MAX,
            proceso.paginas@.len() == 0,
            !old(self).pid_presente(proceso.pid),
            proceso.tamano_kb + old(self).tamano_pagina_kb <= usize::MAX,
            old(self).accesos_totales + paginas_necesarias(
                proceso.tamano_kb as int,
                old(self).tamano_pagina_kb as int,
            ) <= usize::MAX,
            paginas_necesarias(proceso.tamano_kb as int, old(self).tamano_pagina_kb as int) > 0
                ==> old(self).marcos_ram@.len() > 0,
        ensures
            final(self).bien_formado(),
            final(self).procesos_creados == old(self).procesos_creados + 1,
            final(self).procesos_finalizados == old(self).procesos_finalizados,
            final(self).algoritmo == old(self).algoritmo,
            final(self).tamano_pagina_kb == old(self).tamano_pagina_kb,
            final(self).marcos_ram@.len() == old(self).marcos_ram@.len(),
            // the swap area only grows, keeping the old entries in order
            final(self).cola_swap@.len() >= old(self).cola_swap@.len(),
            final(self).cola_swap@.subrange(0, old(self).cola_swap@.len() as int) == old(
                self,
            ).cola_swap@,
            final(self).cola_swap@.len() - old(self).cola_swap@.len() == final(self).swaps_realizados - old(self).swaps_realizados,
            // the processes that were live stay, each with its identity
            final(self).procesos@.len() >= old(self).procesos@.len(),
            forall|j: int|
                0 <= j < old(self).procesos@.len() ==> {
                    let pa = old(self).procesos@[j];
                    let pb = #[trigger] final(self).procesos@[j];
                    &&& pb.pid == pa.pid
                    &&& pb.nombre == pa.nombre
                    &&& pb.tamano_kb == pa.tamano_kb
                    &&& pb.color == pa.color
                    &&& pb.paginas@.len() == pa.paginas@.len()
                },
            ({
                let total = paginas_necesarias(
                    proceso.tamano_kb as int,
                    old(self).tamano_pagina_kb as int,
                );
                let exito = final(self).tiene_proceso(proceso.pid);
                // the admission succeeds iff every page could be loaded;
                // failure happens only against a full swap area
                &&& (exito ==> {
                    &&& final(self).accesos_totales == old(self).accesos_totales + total
                    &&& final(self).fallos_pagina - old(self).fallos_pagina == final(self).swaps_realizados - old(self).swaps_realizados
                    &&& final(self).procesos@.len() == old(self).procesos@.len() + 1
                    &&& ({
                        let q = final(self).proceso_de(proceso.pid);
                        &&& q.pid == proceso.pid
                        &&& q.nombre == proceso.nombre
                        &&& q.tamano_kb == proceso.tamano_kb
                        &&& q.color == proceso.color
                        &&& q.paginas@.len() == total
                        &&& forall|m: int| 0 <= m < total ==> (#[trigger] q.paginas@[m]).id == m
                        &&& forall|m: int|
                            0 <= m < total && (#[trigger] q.paginas@[m]).marco_id is None
                                ==> final(self).cola_swap@.contains((proceso.pid, m as usize))
                    })
                })
                &&& (!exito ==> {
                    &&& final(self).cola_swap@.len() == CAPACIDAD_SWAP
                    &&& final(self).accesos_totales <= old(self).accesos_totales + total
                    &&& final(self).accesos_totales > old(self).accesos_totales
                    &&& final(self).fallos_pagina - old(self).fallos_pagina == final(self).swaps_realizados - old(self).swaps_realizados + 1
                    &&& final(self).procesos@.len() == old(self).procesos@.len()
                })
                // a successful admission keeps the two-way frame mapping
                &&& (old(self).consistente() && exito ==> final(self).consistente())
                // one admission entry is logged, plus one per eviction, and
                // one more for the error on an abort
                &&& final(self).logs@.len() as int == tope_logs(
                    old(self).logs@.len() + 1 + (final(self).fallos_pagina - old(self).fallos_pagina),
                )
                &&& (!exito ==> final(self).logs@.len() > 0 && final(self).logs@.last()@
                    == "[ERROR] "@ + "[ERROR] Swap lleno (50 paginas MAX)"@)
                &&& (exito && final(self).fallos_pagina == old(self).fallos_pagina ==> final(self).logs@.len() > 0
                    && final(self).logs@.last()@ == mensaje_admision(
                    proceso.pid,
                    proceso.nombre@,
                    proceso.tamano_kb,
                    total,
                ))
                // faults are accounted per load: one for every page beyond
                // the frames that were free on entry
                &&& (exito ==> final(self).fallos_pagina - old(self).fallos_pagina == if cuenta_libres(old(self).marcos_ram@) >= total {
                    0int
                } else {
                    total - cuenta_libres(old(self).marcos_ram@)
                })
                &&& (exito ==> cuenta_libres(final(self).marcos_ram@) as int == if cuenta_libres(old(self).marcos_ram@) >= total {
                    cuenta_libres(old(self).marcos_ram@) - total
                } else {
                    0int
                })
                &&& (!exito ==> final(self).fallos_pagina - old(self).fallos_pagina == final(self).accesos_totales - old(self).accesos_totales - cuenta_libres(old(self).marcos_ram@))
                // a frame changes only to receive one of this process's
                // pages; on an abort those frames keep the aborted pid, the
                // deliberate leak of a mid-way failure
                &&& (forall|i: int|
                    0 <= i < old(self).marcos_ram@.len() ==> (#[trigger] final(self).marcos_ram@[i]) == old(self).marcos_ram@[i] || final(self).marcos_ram@[i].proceso_id == Some(proceso.pid))
                &&& (!exito && final(self).accesos_totales > old(self).accesos_totales + 1 ==> exists|i: int|
                    0 <= i < final(self).marcos_ram@.len() && (#[trigger] final(self).marcos_ram@[i]).proceso_id == Some(proceso.pid))
                // with enough free frames the admission is owed: no page
                // faults, and the swap area untouched
                &&& (cuenta_libres(old(self).marcos_ram@) >= total ==> exito && final(self).cola_swap@ == old(self).cola_swap@ && final(self).fallos_pagina == old(
                    self,
                ).fallos_pagina)
                // and the pages then fill the lowest-index frames that were
                // free on entry, in ascending order without gaps
                &&& (cuenta_libres(old(self).marcos_ram@) >= total ==> ({
                    let pgs = final(self).proceso_de(proceso.pid).paginas@;
                    &&& (forall|m: int| 0 <= m < total ==> (#[trigger] pgs[m]).marco_id is Some)
                    &&& (forall|m: int|
                        0 <= m < total ==> !old(self).marco_ocupado(
                            (#[trigger] pgs[m]).marco_id->0 as int,
                        ))
                    &&& (forall|m1: int, m2: int|
                        0 <= m1 < m2 < total ==> (#[trigger] pgs[m1]).marco_id->0 < (
                        #[trigger] pgs[m2]).marco_id->0)
                    &&& (forall|m: int, i: int|
                        #![trigger pgs[m], old(self).marcos_ram@[i]]
                        0 <= m < total && 0 <= i < pgs[m].marco_id->0 as int && !old(
                            self,
                        ).marco_ocupado(i) ==> exists|m2: int|
                            0 <= m2 < m && (#[trigger] pgs[m2]).marco_id->0 as int == i)
                    &&& (forall|m: int|
                        0 <= m < total ==> final(self).marcos_ram@[(
                        #[trigger] pgs[m]).marco_id->0 as int] == (Marco {
                            id: pgs[m].marco_id->0,
                            proceso_id: Some(proceso.pid),
                            pagina_id: Some(m as usize),
                        }))
                }))
            }),
    {
        let ghost viejo = *self;
        let mut proceso = proceso;
        let pid = proceso.pid;
        let total = (proceso.tamano_kb + self.tamano_pagina_kb - 1) / self.tamano_pagina_kb;
        let ghost total_s = paginas_necesarias(
            proceso.tamano_kb as int,
            viejo.tamano_pagina_kb as int,
        );
        let ghost nombre_p = proceso.nombre;
        let ghost tamano_p = proceso.tamano_kb;
        let ghost color_p = proceso.color;

        // build the page table in index order
        let mut m: usize = 0;
        while m < total
            invariant
                proceso.paginas@.len() == m,
                m <= total,
                forall|k: int|
                    0 <= k < m ==> proceso.paginas@[k] == (Pagina {
                        id: k as usize,
                        marco_id: None,
                        referenciada: true,
                        ultimo_uso: 0,
                    }),
                proceso.pid == pid,
                proceso.nombre == nombre_p,
                proceso.tamano_kb == tamano_p,
                proceso.color == color_p,
            decreases total - m,
        {
            proceso.paginas.push(Pagina { id: m, marco_id: None, referenciada: true, ultimo_uso: 0 });
            m += 1;
        }

        self.procesos_creados = self.procesos_creados + 1;
        let mut mensaje = String::from_str("[NUEVO] Proceso P");
        mensaje.append(decimal(pid).as_str());
        mensaje.append(" '");
        mensaje.append(proceso.nombre.as_str());
        mensaje.append("' creado (");
        mensaje.append(decimal(proceso.tamano_kb).as_str());
        mensaje.append("KB, ");
        mensaje.append(decimal(total).as_str());
        mensaje.append(" paginas)");
        proof {
            assert(mensaje@ == mensaje_admision(pid, proceso.nombre@, proceso.tamano_kb, total as int));
        }
        self.registrar_log(mensaje.as_str());
        self.procesos.push(proceso);
        let ghost len0 = viejo.procesos@.len() as int;
        proof {
            assert(self.procesos@[len0].pid == pid);
            assert(self.tiene_proceso(pid));
            assert(self.bien_formado()) by {
                assert(forall|j: int|
                    0 <= j < len0 ==> (#[trigger] self.procesos@[j]).pid != pid);
            }
            if viejo.consistente() {
                assert forall|i: int|
                    0 <= i < self.marcos_ram@.len() && self.marco_ocupado(i)
                        && self.tiene_proceso(
                        (#[trigger] self.marcos_ram@[i]).proceso_id->0,
                    ) implies self.pagina_valida(
                    self.marcos_ram@[i].proceso_id->0,
                    self.marcos_ram@[i].pagina_id->0,
                ) && self.pagina_de(
                    self.marcos_ram@[i].proceso_id->0,
                    self.marcos_ram@[i].pagina_id->0,
                ).marco_id == Some(i as usize) by {
                    let q = self.marcos_ram@[i].proceso_id->0;
                    assert(q != pid);
                    assert(viejo.tiene_proceso(q)) by {
                        let jq = self.idx_proceso(q);
                        assert(jq < len0);
                        assert(viejo.procesos@[jq].pid == q);
                    }
                    let jv = viejo.idx_proceso(q);
                    assert(viejo.pagina_de(q, self.marcos_ram@[i].pagina_id->0).marco_id
                        == Some(i as usize));
                    self.lema_indice_unico(q, jv);
                }
                assert(self.consistente());
            }
        }

        // load every page; abort on the first failure, leaving earlier
        // frames as they are
        let mut idx: usize = 0;
        let mut fallo = false;
        let ghost libres0 = cuenta_libres(viejo.marcos_ram@);
        while idx < total
            invariant_except_break
                fallo == false,
                self.bien_formado(),
                idx <= total,
                total == total_s,
                len0 == viejo.procesos@.len() as int,
                viejo == *old(self),
                total > 0 ==> self.marcos_ram@.len() > 0,
                self.marcos_ram@.len() == viejo.marcos_ram@.len(),
                self.procesos_creados == viejo.procesos_creados + 1,
                self.procesos_finalizados == viejo.procesos_finalizados,
                self.algoritmo == viejo.algoritmo,
                self.tamano_pagina_kb == viejo.tamano_pagina_kb,
                self.accesos_totales == viejo.accesos_totales + idx,
                viejo.accesos_totales + total <= usize::MAX,
                self.fallos_pagina - viejo.fallos_pagina == self.swaps_realizados
                    - viejo.swaps_realizados,
                self.cola_swap@.len() - viejo.cola_swap@.len() == self.swaps_realizados
                    - viejo.swaps_realizados,
                self.cola_swap@.len() >= viejo.cola_swap@.len(),
                self.cola_swap@.subrange(0, viejo.cola_swap@.len() as int) == viejo.cola_swap@,
                // the admitted process sits at the end
                self.procesos@.len() == len0 + 1,
                forall|j: int| 0 <= j < len0 ==> (#[trigger] self.procesos@[j]).pid != pid,
                self.procesos@[len0].pid == pid,
                self.procesos@[len0].nombre == nombre_p,
                self.procesos@[len0].tamano_kb == tamano_p,
                self.procesos@[len0].color == color_p,
                self.procesos@[len0].paginas@.len() == total,
                forall|k: int|
                    0 <= k < total ==> (#[trigger] self.procesos@[len0].paginas@[k]).id == k,
                // pages not yet loaded are nowhere: not resident, in no
                // frame, in no swap entry
                forall|k: int|
                    idx <= k < total ==> (#[trigger] self.procesos@[len0].paginas@[k]).marco_id
                        is None,
                forall|i: int|
                    0 <= i < self.marcos_ram@.len() && (#[trigger] self.marcos_ram@[i]).proceso_id
                        == Some(pid) ==> self.marcos_ram@[i].pagina_id->0 < idx,
                forall|s: int|
                    0 <= s < self.cola_swap@.len() && (#[trigger] self.cola_swap@[s]).0 == pid
                        ==> self.cola_swap@[s].1 < idx,
                // a loaded page that lost its frame went to the swap area
                forall|k: int|
                    0 <= k < idx && (#[trigger] self.procesos@[len0].paginas@[k]).marco_id
                        is None ==> self.cola_swap@.contains((pid, k as usize)),
                // the processes that were live keep their identity
                forall|j: int|
                    0 <= j < len0 ==> {
                        let pa = viejo.procesos@[j];
                        let pb = #[trigger] self.procesos@[j];
                        &&& pb.pid == pa.pid
                        &&& pb.nombre == pa.nombre
                        &&& pb.tamano_kb == pa.tamano_kb
                        &&& pb.color == pa.color
                        &&& pb.paginas@.len() == pa.paginas@.len()
                    },
                viejo.consistente() ==> self.consistente(),
                // the free count falls one per load until it is spent;
                // after that every load is a fault
                cuenta_libres(self.marcos_ram@) as int == if idx <= libres0 {
                    libres0 - idx
                } else {
                    0int
                },
                self.fallos_pagina as int == viejo.fallos_pagina + (if idx <= libres0 {
                    0int
                } else {
                    idx - libres0
                }),
                // a frame changes only to receive one of the new pages
                forall|i: int|
                    0 <= i < viejo.marcos_ram@.len() ==> (#[trigger] self.marcos_ram@[i])
                        == viejo.marcos_ram@[i] || self.marcos_ram@[i].proceso_id == Some(pid),
                idx >= 1 ==> exists|i: int|
                    0 <= i < self.marcos_ram@.len() && (#[trigger] self.marcos_ram@[i]).proceso_id
                        == Some(pid),
                // with enough free frames no load faults
                libres0 >= total ==> self.cola_swap@ == viejo.cola_swap@,
                self.logs@.len() as int == tope_logs(
                    viejo.logs@.len() + 1 + (if idx <= libres0 {
                        0int
                    } else {
                        idx - libres0
                    }),
                ),
                // under a sufficient free budget the pages fill the lowest
                // frames that were free on entry, ascending and gap-free
                libres0 >= total ==> ({
                    let pgs = self.procesos@[len0].paginas@;
                    &&& (forall|m: int| 0 <= m < idx ==> (#[trigger] pgs[m]).marco_id is Some)
                    &&& (forall|m: int|
                        0 <= m < idx ==> !viejo.marco_ocupado(
                            (#[trigger] pgs[m]).marco_id->0 as int,
                        ))
                    &&& (forall|m1: int, m2: int|
                        0 <= m1 < m2 < idx ==> (#[trigger] pgs[m1]).marco_id->0 < (
                        #[trigger] pgs[m2]).marco_id->0)
                    &&& (forall|m: int, i: int|
                        #![trigger pgs[m], viejo.marcos_ram@[i]]
                        0 <= m < idx && 0 <= i < pgs[m].marco_id->0 as int
                            && !viejo.marco_ocupado(i) ==> exists|m2: int|
                            0 <= m2 < m && (#[trigger] pgs[m2]).marco_id->0 as int == i)
                    &&& (forall|m: int|
                        0 <= m < idx ==> self.marcos_ram@[(
                        #[trigger] pgs[m]).marco_id->0 as int] == (Marco {
                            id: pgs[m].marco_id->0,
                            proceso_id: Some(pid),
                            pagina_id: Some(m as usize),
                        }))
                }),
                idx <= libres0 ==> self.logs@.len() > 0 && self.logs@.last()@
                    == mensaje_admision(pid, nombre_p@, tamano_p, total as int),
            ensures
                self.bien_formado(),
                len0 == viejo.procesos@.len() as int,
                viejo == *old(self),
                self.marcos_ram@.len() == viejo.marcos_ram@.len(),
                self.procesos_creados == viejo.procesos_creados + 1,
                self.procesos_finalizados == viejo.procesos_finalizados,
                self.algoritmo == viejo.algoritmo,
                self.tamano_pagina_kb == viejo.tamano_pagina_kb,
                self.cola_swap@.len() - viejo.cola_swap@.len() == self.swaps_realizados
                    - viejo.swaps_realizados,
                self.cola_swap@.len() >= viejo.cola_swap@.len(),
                self.cola_swap@.subrange(0, viejo.cola_swap@.len() as int) == viejo.cola_swap@,
                forall|j: int|
                    0 <= j < len0 ==> {
                        let pa = viejo.procesos@[j];
                        let pb = #[trigger] self.procesos@[j];
                        &&& pb.pid == pa.pid
                        &&& pb.nombre == pa.nombre
                        &&& pb.tamano_kb == pa.tamano_kb
                        &&& pb.color == pa.color
                        &&& pb.paginas@.len() == pa.paginas@.len()
                    },
                forall|i: int|
                    0 <= i < viejo.marcos_ram@.len() ==> (#[trigger] self.marcos_ram@[i])
                        == viejo.marcos_ram@[i] || self.marcos_ram@[i].proceso_id == Some(pid),
                !fallo ==> {
                    &&& self.accesos_totales == viejo.accesos_totales + total
                    &&& self.fallos_pagina - viejo.fallos_pagina == self.swaps_realizados
                        - viejo.swaps_realizados
                    &&& self.procesos@.len() == len0 + 1
                    &&& self.procesos@[len0].pid == pid
                    &&& self.procesos@[len0].nombre == nombre_p
                    &&& self.procesos@[len0].tamano_kb == tamano_p
                    &&& self.procesos@[len0].color == color_p
                    &&& self.procesos@[len0].paginas@.len() == total
                    &&& (forall|j: int|
                        0 <= j < len0 ==> (#[trigger] self.procesos@[j]).pid != pid)
                    &&& (forall|k: int|
                        0 <= k < total ==> (#[trigger] self.procesos@[len0].paginas@[k]).id == k)
                    &&& (forall|k: int|
                        0 <= k < total && (#[trigger] self.procesos@[len0].paginas@[k]).marco_id
                            is None ==> self.cola_swap@.contains((pid, k as usize)))
                    &&& (libres0 >= total ==> self.cola_swap@ == viejo.cola_swap@)
                    &&& self.fallos_pagina as int == viejo.fallos_pagina + (if total <= libres0 {
                        0int
                    } else {
                        total - libres0
                    })
                    &&& cuenta_libres(self.marcos_ram@) as int == if total <= libres0 {
                        libres0 - total
                    } else {
                        0int
                    }
                    &&& self.logs@.len() as int == tope_logs(
                        viejo.logs@.len() + 1 + (if total <= libres0 {
                            0int
                        } else {
                            total - libres0
                        }),
                    )
                    &&& (total <= libres0 ==> self.logs@.len() > 0 && self.logs@.last()@
                        == mensaje_admision(pid, nombre_p@, tamano_p, total as int))
                    &&& (viejo.consistente() ==> self.consistente())
                    &&& (libres0 >= total ==> ({
                        let pgs = self.procesos@[len0].paginas@;
                        &&& (forall|m: int| 0 <= m < total ==> (#[trigger] pgs[m]).marco_id is Some)
                        &&& (forall|m: int|
                            0 <= m < total ==> !viejo.marco_ocupado(
                                (#[trigger] pgs[m]).marco_id->0 as int,
                            ))
                        &&& (forall|m1: int, m2: int|
                            0 <= m1 < m2 < total ==> (#[trigger] pgs[m1]).marco_id->0 < (
                            #[trigger] pgs[m2]).marco_id->0)
                        &&& (forall|m: int, i: int|
                            #![trigger pgs[m], viejo.marcos_ram@[i]]
                            0 <= m < total && 0 <= i < pgs[m].marco_id->0 as int
                                && !viejo.marco_ocupado(i) ==> exists|m2: int|
                                0 <= m2 < m && (#[trigger] pgs[m2]).marco_id->0 as int == i)
                        &&& (forall|m: int|
                            0 <= m < total ==> self.marcos_ram@[(
                            #[trigger] pgs[m]).marco_id->0 as int] == (Marco {
                                id: pgs[m].marco_id->0,
                                proceso_id: Some(pid),
                                pagina_id: Some(m as usize),
                            }))
                    }))
                },
                fallo ==> {
                    &&& self.procesos@.len() == len0
                    &&& !self.tiene_proceso(pid)
                    &&& viejo.accesos_totales < self.accesos_totales
                    &&& self.accesos_totales <= viejo.accesos_totales + total
                    &&& self.fallos_pagina as int == viejo.fallos_pagina + self.accesos_totales
                        - viejo.accesos_totales - libres0
                    &&& (self.accesos_totales > viejo.accesos_totales + 1 ==> exists|i: int|
                        0 <= i < self.marcos_ram@.len() && (
                        #[trigger] self.marcos_ram@[i]).proceso_id == Some(pid))
                    &&& self.logs@.len() as int == tope_logs(
                        viejo.logs@.len() + 1 + (self.fallos_pagina - viejo.fallos_pagina),
                    )
                    &&& self.logs@.len() > 0
                    &&& self.logs@.last()@ == "[ERROR] "@
                        + "[ERROR] Swap lleno (50 paginas MAX)"@
                    &&& self.fallos_pagina - viejo.fallos_pagina == self.swaps_realizados
                        - viejo.swaps_realizados + 1
                    &&& self.cola_swap@.len() == CAPACIDAD_SWAP
                    &&& libres0 < total
                },
            decreases total - idx,
        {
            let ghost antes = *self;
            proof {
                assert(antes.procesos@.len() == len0 + 1);
                assert(antes.procesos@[len0].pid == pid);
            }
            match self.cargar_pagina(pid, idx) {
                Ok(_) => {
                    proof {
                        let t = choose|t: int| carga_correcta(antes, *self, pid, idx, t);
                        antes.lema_indice_unico(pid, len0);
                        if antes.sin_marcos_libres() {
                            assert(self.cola_swap@ == antes.cola_swap@.push(
                                ((
                                    antes.marcos_ram@[t].proceso_id->0,
                                    antes.marcos_ram@[t].pagina_id->0,
                                )),
                            ));
                            if antes.marcos_ram@[t].proceso_id == Some(pid) {
                                assert(antes.marcos_ram@[t].pagina_id->0 < idx);
                            }
                        }
                        assert(self.procesos@[len0] == self.proceso_de(pid)) by {
                            self.lema_indice_unico(pid, len0);
                        }
                        if viejo.consistente() {
                            crate::leyes::lema_carga_conserva_consistencia(
                                antes,
                                *self,
                                pid,
                                idx,
                                t,
                            );
                        }
                        // swap entries of this process keep naming loaded pages
                        assert forall|s: int|
                            0 <= s < self.cola_swap@.len() && (#[trigger] self.cola_swap@[s]).0
                                == pid implies self.cola_swap@[s].1 < idx + 1 by {
                            if s < antes.cola_swap@.len() {
                                assert(antes.cola_swap@[s].0 == pid
                                    ==> antes.cola_swap@[s].1 < idx);
                                assert(self.cola_swap@[s] == antes.cola_swap@[s]);
                            } else {
                                assert(antes.sin_marcos_libres());
                                assert(antes.marco_ocupado(t));
                                assert(antes.marcos_ram@[t].proceso_id is Some);
                                assert(antes.marcos_ram@[t].proceso_id == Some(pid)
                                    ==> antes.marcos_ram@[t].pagina_id->0 < idx);
                                assert(self.cola_swap@[s] == (
                                    antes.marcos_ram@[t].proceso_id->0,
                                    antes.marcos_ram@[t].pagina_id->0,
                                ));
                            }
                        }
                        // a loaded page that lost its frame moved to swap
                        assert forall|k: int|
                            0 <= k < idx + 1 && (#[trigger] self.procesos@[len0].paginas@[k]).marco_id
                                is None implies self.cola_swap@.contains((pid, k as usize)) by {
                            if k < idx {
                                if antes.procesos@[len0].paginas@[k].marco_id is None {
                                    let si = choose|si: int|
                                        0 <= si < antes.cola_swap@.len()
                                            && antes.cola_swap@[si] == (pid, k as usize);
                                    assert(self.cola_swap@[si] == (pid, k as usize));
                                } else {
                                    // its frame was withdrawn, so it is the
                                    // evicted victim, whose pair was pushed
                                    assert(antes.sin_marcos_libres());
                                    assert(self.cola_swap@[self.cola_swap@.len() - 1] == (
                                    pid,
                                    k as usize,
                                    ));
                                }
                            } else {
                                assert(self.pagina_de(pid, idx).marco_id is Some);
                                assert(false);
                            }
                        }
                        // free-count bookkeeping: a hit spends one free
                        // frame, a fault replaces an occupied one
                        lema_cuenta_update(
                            antes.marcos_ram@,
                            t,
                            (Marco {
                                id: t as usize,
                                proceso_id: Some(pid),
                                pagina_id: Some(idx),
                            }),
                        );
                        if antes.sin_marcos_libres() {
                            assert(antes.marco_ocupado(t));
                            if cuenta_libres(antes.marcos_ram@) > 0 {
                                lema_libre_existe(antes);
                                assert(false);
                            }
                        } else {
                            let iw = choose|iw: int|
                                0 <= iw < antes.marcos_ram@.len() && !antes.marco_ocupado(iw);
                            lema_libre_da_cuenta(antes.marcos_ram@, iw);
                            assert(cuenta_libres(antes.marcos_ram@) > 0);
                        }
                        if libres0 >= total {
                            // a hit on the lowest free frame extends the
                            // ascending placement
                            lema_libre_existe(antes);
                            assert(!antes.sin_marcos_libres());
                            assert forall|m: int|
                                0 <= m < antes.procesos@[len0].paginas@.len() && m
                                    != idx implies (
                            #[trigger] self.procesos@[len0].paginas@[m])
                                == antes.procesos@[len0].paginas@[m] by {}
                            assert(self.procesos@[len0].paginas@[idx as int].marco_id == Some(
                                t as usize,
                            ));
                            lema_colocacion_paso(viejo, antes, *self, pid, len0, idx, t);
                        }
                        assert(self.cola_swap@.subrange(0, viejo.cola_swap@.len() as int)
                            =~= viejo.cola_swap@);
                    }
                },
                Err(error) => {
                    let mut aviso = String::from_str("[ERROR] ");
                    aviso.append(error.as_str());
                    proof {
                        assert(aviso@ == "[ERROR] "@ + "[ERROR] Swap lleno (50 paginas MAX)"@);
                    }
                    self.registrar_log(aviso.as_str());
                    let ghost con_p = *self;
                    self.procesos.pop();
                    proof {
                        assert(self.procesos@ =~= con_p.procesos@.subrange(0, len0));
                        assert forall|q: usize| #[trigger]
                            self.tiene_proceso(q) implies con_p.tiene_proceso(q) by {
                            let jq = self.idx_proceso(q);
                            assert(con_p.procesos@[jq].pid == q);
                        }
                        assert(!self.tiene_proceso(pid));
                        assert(self.bien_formado()) by {
                            assert forall|s: int|
                                0 <= s < self.cola_swap@.len() && self.tiene_proceso(
                                    (#[trigger] self.cola_swap@[s]).0,
                                ) implies {
                                &&& self.pagina_valida(self.cola_swap@[s].0, self.cola_swap@[s].1)
                                &&& self.pagina_de(
                                    self.cola_swap@[s].0,
                                    self.cola_swap@[s].1,
                                ).marco_id is None
                            } by {
                                let q = self.cola_swap@[s].0;
                                assert(con_p.tiene_proceso(q));
                                let jq = self.idx_proceso(q);
                                con_p.lema_indice_unico(q, jq);
                            }
                            assert forall|jj: int, kk: int|
                                0 <= jj < self.procesos@.len() && 0 <= kk
                                    < self.procesos@[jj].paginas@.len() && (
                                #[trigger] self.procesos@[jj].paginas@[kk]).marco_id
                                    is Some implies {
                                let f = self.procesos@[jj].paginas@[kk].marco_id->0 as int;
                                &&& 0 <= f < self.marcos_ram@.len()
                                &&& self.marcos_ram@[f].proceso_id == Some(self.procesos@[jj].pid)
                                &&& self.marcos_ram@[f].pagina_id == Some(kk as usize)
                            } by {
                                assert(self.procesos@[jj] == con_p.procesos@[jj]);
                            }
                            assert forall|i: int|
                                0 <= i < self.marcos_ram@.len() && self.marco_ocupado(i)
                                    && self.tiene_proceso(
                                    (#[trigger] self.marcos_ram@[i]).proceso_id->0,
                                ) implies self.marcos_ram@[i].pagina_id->0 < self.proceso_de(
                                self.marcos_ram@[i].proceso_id->0,
                            ).paginas@.len() by {
                                let q = self.marcos_ram@[i].proceso_id->0;
                                let jq = self.idx_proceso(q);
                                con_p.lema_indice_unico(q, jq);
                            }
                        }
                        // the fault means no frame was free, so the free
                        // budget was already spent
                        assert(antes.sin_marcos_libres());
                        if cuenta_libres(antes.marcos_ram@) > 0 {
                            lema_libre_existe(antes);
                            assert(false);
                        }
                        assert(idx >= libres0);
                        assert(self.cola_swap@.subrange(0, viejo.cola_swap@.len() as int)
                            =~= viejo.cola_swap@);
                    }
                    fallo = true;
                    break ;
                },
            }
            idx += 1;
        }
        if fallo {
            return ;
        }
        proof {
            self.lema_indice_unico(pid, len0);
        }
    }

    /// Terminates the live process with this id: frees its frames, purges
    /// its swap entries, removes it from the live collection, counts the
    /// termination and logs it. Terminating an id that is not live is a
    /// no-op: no counter moves and nothing is logged.
    #[verifier::rlimit(100)]
    pub fn terminar_proceso(&mut self, pid: usize)
        requires
            old(self).bien_formado(),
        ensures
            final(self).bien_formado(),
            !old(self).tiene_proceso(pid) ==> *final(self) == *old(self),
            old(self).tiene_proceso(pid) ==> relacion_terminacion(*old(self), *final(self), pid),
            old(self).consistente() ==> final(self).consistente(),
    {
        if !self.proceso_vivo(pid) {
            return ;
        }
        let ghost viejo = *self;
        let j = self.indice_proceso_vivo(pid);

        // free every frame the process occupies
        let len = self.marcos_ram.len();
        let mut i: usize = 0;
        while i < len
            invariant
                *self == (GestorMemoria { marcos_ram: self.marcos_ram, ..viejo }),
                len == self.marcos_ram@.len(),
                len == viejo.marcos_ram@.len(),
                0 <= i <= len,
                forall|i2: int|
                    0 <= i2 < i ==> #[trigger] self.marcos_ram@[i2] == if viejo.marcos_ram@[i2].proceso_id
                        == Some(pid) {
                        (Marco { id: i2 as usize, proceso_id: None, pagina_id: None })
                    } else {
                        viejo.marcos_ram@[i2]
                    },
                forall|i2: int|
                    i <= i2 < len ==> #[trigger] self.marcos_ram@[i2] == viejo.marcos_ram@[i2],
                viejo.bien_formado(),
            decreases len - i,
        {
            let ocupante = self.marcos_ram[i].proceso_id;
            match ocupante {
                Some(q) => {
                    if q == pid {
                        self.marcos_ram.set(
                            i,
                            Marco { id: i, proceso_id: None, pagina_id: None },
                        );
                    }
                },
                None => {},
            }
            i += 1;
        }

        // purge the process's swap entries, keeping the others in order
        let ghost tras_marcos = *self;
        let ghost mut procesadas: int = 0;
        let mut nueva: VecDeque<(usize, usize)> = VecDeque::new();
        loop
            invariant
                *self == (GestorMemoria { cola_swap: self.cola_swap, ..tras_marcos }),
                0 <= procesadas <= viejo.cola_swap@.len(),
                self.cola_swap@ == viejo.cola_swap@.subrange(
                    procesadas,
                    viejo.cola_swap@.len() as int,
                ),
                nueva@ == sin_pid(viejo.cola_swap@.subrange(0, procesadas), pid),
                forall|s: int|
                    0 <= s < nueva@.len() ==> (#[trigger] nueva@[s]).0 != pid
                        && viejo.cola_swap@.contains(nueva@[s]),
            ensures
                *self == (GestorMemoria { cola_swap: self.cola_swap, ..tras_marcos }),
                self.cola_swap@.len() == 0,
                nueva@ == sin_pid(viejo.cola_swap@, pid),
                forall|s: int|
                    0 <= s < nueva@.len() ==> (#[trigger] nueva@[s]).0 != pid
                        && viejo.cola_swap@.contains(nueva@[s]),
            decreases self.cola_swap@.len(),
        {
            match self.cola_swap.pop_front() {
                Some(par) => {
                    if par.0 != pid {
                        nueva.push_back(par);
                    }
                    proof {
                        let antes = viejo.cola_swap@.subrange(0, procesadas);
                        lema_sin_pid_paso(antes, par, pid);
                        assert(antes.push(par) =~= viejo.cola_swap@.subrange(
                            0,
                            procesadas + 1,
                        ));
                        assert(viejo.cola_swap@.contains(par)) by {
                            assert(viejo.cola_swap@[procesadas] == par);
                        }
                        procesadas = procesadas + 1;
                        assert(self.cola_swap@ =~= viejo.cola_swap@.subrange(
                            procesadas,
                            viejo.cola_swap@.len() as int,
                        ));
                    }
                },
                None => {
                    proof {
                        assert(viejo.cola_swap@.subrange(0, procesadas)
                            =~= viejo.cola_swap@);
                    }
                    break ;
                },
            }
        }
        self.cola_swap = nueva;

        // drop the process itself and account for it
        self.procesos.remove(j);
        self.procesos_finalizados = self.procesos_finalizados + 1;
        proof {
            lema_remover_proceso(viejo, *self, j as int);
            assert(self.bien_formado()) by {
                assert forall|jj: int, kk: int|
                    0 <= jj < self.procesos@.len() && 0 <= kk
                        < self.procesos@[jj].paginas@.len()
                        && (#[trigger] self.procesos@[jj].paginas@[kk]).marco_id
                        is Some implies {
                    let f = self.procesos@[jj].paginas@[kk].marco_id->0 as int;
                    &&& 0 <= f < self.marcos_ram@.len()
                    &&& self.marcos_ram@[f].proceso_id == Some(self.procesos@[jj].pid)
                    &&& self.marcos_ram@[f].pagina_id == Some(kk as usize)
                } by {
                    let ja = if jj < j as int {
                        jj
                    } else {
                        jj + 1
                    };
                    assert(self.procesos@[jj] == viejo.procesos@[ja]);
                    assert(viejo.procesos@[ja].pid != pid);
                }
            }
        }
        let mut mensaje = String::from_str("[TERM] Proceso P");
        mensaje.append(decimal(pid).as_str());
        mensaje.append(" terminado y liberado");
        proof {
            assert(mensaje@ == mensaje_terminacion(pid));
        }
        self.registrar_log(mensaje.as_str());
        proof {
            if old(self).consistente() {
                crate::leyes::lema_terminacion_conserva_consistencia(*old(self), *self, pid);
            }
        }
    }

    /// Terminates one live process chosen at random; a no-op when none is
    /// live.
    pub fn matar_proceso_aleatorio(&mut self)
        requires
            old(self).bien_formado(),
        ensures
            final(self).bien_formado(),
            old(self).procesos@.len() == 0 ==> *final(self) == *old(self),
            old(self).procesos@.len() > 0 ==> exists|j: int|
                0 <= j < old(self).procesos@.len() && relacion_terminacion(
                    *old(self),
                    *final(self),
                    (#[trigger] old(self).procesos@[j]).pid,
                ),
            old(self).consistente() ==> final(self).consistente(),
    {
        if self.procesos.len() == 0 {
            return ;
        }
        let j = indice_aleatorio(self.procesos.len());
        let pid = self.procesos[j].pid;
        proof {
            assert(self.tiene_proceso(pid));
        }
        self.terminar_proceso(pid);
    }

    /// Switches the active eviction policy; takes effect on the next fault
    /// and alters no other state.
    pub fn cambiar_algoritmo(&mut self, algoritmo: AlgoritmoReemplazo)
        ensures
            *final(self) == (GestorMemoria { algoritmo, ..*old(self) }),
    {
        self.algoritmo = algoritmo;
    }
}

} // verus!

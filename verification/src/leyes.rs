//! Laws of the memory manager, stated and proved over the contracts of the
//! operations: the two-way frame mapping, the second-chance bound of the
//! Clock policy, and the determinacy of the LRU victim.

use vstd::prelude::*;

verus! {

use crate::gestor::{
    carga_correcta,
    efecto_seleccion,
    identidad_procesos,
    lema_identidad_indices,
    lema_mod_rango,
    lema_remover_proceso,
    relacion_terminacion,
};
use crate::models::GestorMemoria;

/// A resident page sits in exactly one frame, and that frame names the page
/// back: its occupant pair is this very (process, page) pair, and no other
/// frame carries that pair.
pub proof fn lema_residente_unico(a: GestorMemoria, pid: usize, pg: usize)
    requires
        a.bien_formado(),
        a.pagina_valida(pid, pg),
        a.pagina_de(pid, pg).marco_id is Some,
    ensures
        ({
            let f = a.pagina_de(pid, pg).marco_id->0 as int;
            &&& 0 <= f < a.marcos_ram@.len()
            &&& a.marcos_ram@[f].proceso_id == Some(pid)
            &&& a.marcos_ram@[f].pagina_id == Some(pg)
            &&& forall|i: int|
                0 <= i < a.marcos_ram@.len() && i != f ==> !((
                #[trigger] a.marcos_ram@[i]).proceso_id == Some(pid)
                    && a.marcos_ram@[i].pagina_id == Some(pg))
        }),
{
    let j = a.idx_proceso(pid);
    let f = a.pagina_de(pid, pg).marco_id->0 as int;
    assert(a.procesos@[j].paginas@[pg as int].marco_id is Some);
    assert forall|i: int|
        0 <= i < a.marcos_ram@.len() && i != f implies !((
    #[trigger] a.marcos_ram@[i]).proceso_id == Some(pid) && a.marcos_ram@[i].pagina_id == Some(
        pg,
    )) by {
        if a.marcos_ram@[i].proceso_id == Some(pid) && a.marcos_ram@[i].pagina_id == Some(pg) {
            assert(a.marco_ocupado(i) && a.marco_ocupado(f));
        }
    }
}

/// A successful page load keeps the two-way frame mapping: if every occupied
/// frame of a live process named a page pointing back at it before the load,
/// the same holds after.
pub proof fn lema_carga_conserva_consistencia(
    a: GestorMemoria,
    b: GestorMemoria,
    pid: usize,
    pg: usize,
    t: int,
)
    requires
        a.bien_formado(),
        b.bien_formado(),
        a.consistente(),
        a.tiene_proceso(pid),
        carga_correcta(a, b, pid, pg, t),
        identidad_procesos(a, b),
    ensures
        b.consistente(),
{
    lema_identidad_indices(a, b);
    assert forall|i: int|
        0 <= i < b.marcos_ram@.len() && b.marco_ocupado(i) && b.tiene_proceso(
            (#[trigger] b.marcos_ram@[i]).proceso_id->0,
        ) implies b.pagina_valida(
        b.marcos_ram@[i].proceso_id->0,
        b.marcos_ram@[i].pagina_id->0,
    ) && b.pagina_de(b.marcos_ram@[i].proceso_id->0, b.marcos_ram@[i].pagina_id->0).marco_id
        == Some(i as usize) by {
        if i == t {
            assert(b.pagina_de(pid, pg).marco_id == Some(t as usize));
            assert(b.idx_proceso(pid) == a.idx_proceso(pid));
        } else {
            let q = b.marcos_ram@[i].proceso_id->0;
            let g = b.marcos_ram@[i].pagina_id->0;
            assert(b.marcos_ram@[i] == a.marcos_ram@[i]);
            assert(a.marco_ocupado(i) && a.tiene_proceso(q));
            assert(a.pagina_de(q, g).marco_id == Some(i as usize));
            let jq = a.idx_proceso(q);
            assert(a.procesos@[jq].pid == q);
            // the page of this other frame is neither the loaded page nor
            // the evicted victim's, so it kept its frame
            if a.sin_marcos_libres() {
                if q == a.marcos_ram@[t].proceso_id->0 && g as int
                    == a.marcos_ram@[t].pagina_id->0 as int {
                    // two occupied frames would carry one pair
                    assert(a.marco_ocupado(t));
                    assert(false);
                }
                assert(b.procesos@[jq].paginas@[g as int].marco_id
                    == a.procesos@[jq].paginas@[g as int].marco_id);
            } else {
                assert(b.procesos@[jq].paginas@[g as int] == a.procesos@[jq].paginas@[g as int]);
            }
            assert(b.idx_proceso(q) == jq);
        }
    }
}

/// Termination keeps the two-way frame mapping: the terminated process's
/// frames are freed, and every other frame still names a page that points
/// back at it.
pub proof fn lema_terminacion_conserva_consistencia(
    a: GestorMemoria,
    b: GestorMemoria,
    pid: usize,
)
    requires
        a.bien_formado(),
        a.consistente(),
        relacion_terminacion(a, b, pid),
    ensures
        b.consistente(),
{
    lema_remover_proceso(a, b, a.idx_proceso(pid));
    assert forall|i: int|
        0 <= i < b.marcos_ram@.len() && b.marco_ocupado(i) && b.tiene_proceso(
            (#[trigger] b.marcos_ram@[i]).proceso_id->0,
        ) implies b.pagina_valida(
        b.marcos_ram@[i].proceso_id->0,
        b.marcos_ram@[i].pagina_id->0,
    ) && b.pagina_de(b.marcos_ram@[i].proceso_id->0, b.marcos_ram@[i].pagina_id->0).marco_id
        == Some(i as usize) by {
        let q = b.marcos_ram@[i].proceso_id->0;
        let g = b.marcos_ram@[i].pagina_id->0;
        assert(a.marcos_ram@[i].proceso_id != Some(pid));
        assert(b.marcos_ram@[i] == a.marcos_ram@[i]);
        assert(a.marco_ocupado(i) && a.tiene_proceso(q));
        assert(a.pagina_de(q, g).marco_id == Some(i as usize));
        assert(b.proceso_de(q) == a.proceso_de(q));
    }
}

/// The second-chance bound of the Clock policy: when every frame's occupant
/// page holds its reference bit, one eviction walks the whole table exactly
/// once — clearing each bit — and settles on the frame under the pointer,
/// whose bit the first step already cleared. Afterwards every occupant
/// page's reference bit is clear.
pub proof fn lema_reloj_segunda_oportunidad(a: GestorMemoria, b: GestorMemoria, v: int)
    requires
        a.bien_formado(),
        a.marcos_ram@.len() > 0,
        a.algoritmo is Reloj,
        efecto_seleccion(a, b, v),
        forall|i: int| 0 <= i < a.marcos_ram@.len() ==> a.reloj_da_paso(i),
    ensures
        v == a.puntero_reloj as int,
        forall|i: int|
            0 <= i < a.marcos_ram@.len() ==> b.pagina_de(
                (#[trigger] a.marcos_ram@[i]).proceso_id->0,
                a.marcos_ram@[i].pagina_id->0,
            ).referenciada == false,
{
    let len = a.marcos_ram@.len() as int;
    let n = choose|n: int| #[trigger] a.escaneo_reloj(n, v) && (forall|k: int|
        0 <= k < n ==> {
            let i = #[trigger] a.desplazado(k);
            b.pagina_de(
                a.marcos_ram@[i].proceso_id->0,
                a.marcos_ram@[i].pagina_id->0,
            ).referenciada == false
        });
    // the scan cannot stop early: every frame grants a pass
    assert(n == len) by {
        if n < len {
            lema_mod_rango(a.puntero_reloj + n, len);
            assert(a.reloj_da_paso(a.desplazado(n)));
        }
    }
    lema_mod_rango(a.puntero_reloj + len, len);
    assert(v == a.puntero_reloj as int);
    // a full circuit visits every frame
    assert forall|i: int| 0 <= i < len implies b.pagina_de(
        (#[trigger] a.marcos_ram@[i]).proceso_id->0,
        a.marcos_ram@[i].pagina_id->0,
    ).referenciada == false by {
        let k = if i >= a.puntero_reloj as int {
            i - a.puntero_reloj
        } else {
            i + len - a.puntero_reloj
        };
        lema_mod_rango(a.puntero_reloj + k, len);
        assert(a.desplazado(k) == i);
        assert(0 <= k < n);
    }
}

/// The LRU victim is determinate: the policy's description — smallest
/// timestamp, lowest frame index on a tie — names exactly one frame.
pub proof fn lema_lru_determinista(a: GestorMemoria, v1: int, v2: int)
    requires
        a.es_victima_lru(v1),
        a.es_victima_lru(v2),
    ensures
        v1 == v2,
{
    if a.hay_resoluble_con_uso() {
        assert(a.uso_del_marco(v1) <= a.uso_del_marco(v2));
        assert(a.uso_del_marco(v2) <= a.uso_del_marco(v1));
        if v1 < v2 {
            assert(a.uso_del_marco(v2) < a.uso_del_marco(v1));
        }
        if v2 < v1 {
            assert(a.uso_del_marco(v1) < a.uso_del_marco(v2));
        }
    }
}

/// Terminating twice is as terminating once: after a process id is gone,
/// terminating it again relates the state to itself — the operation is a
/// no-op on ids that are not live.
pub proof fn lema_terminacion_idempotente(a: GestorMemoria, b: GestorMemoria, pid: usize)
    requires
        a.bien_formado(),
        relacion_terminacion(a, b, pid),
    ensures
        !b.tiene_proceso(pid),
{
    let j = a.idx_proceso(pid);
    assert(a.procesos@[j].pid == pid);
    assert(forall|i: int|
        0 <= i < b.procesos@.len() ==> #[trigger] b.procesos@[i] == if i < j {
            a.procesos@[i]
        } else {
            a.procesos@[i + 1]
        });
    if b.tiene_proceso(pid) {
        let i = b.idx_proceso(pid);
        assert(b.procesos@[i].pid == pid);
        if i < j {
            assert(a.procesos@[i].pid != a.procesos@[j].pid);
        } else {
            assert(a.procesos@[j].pid != a.procesos@[i + 1].pid);
        }
        assert(false);
    }
}

} // verus!




//! Data model of the memory manager: logical pages, physical frames,
//! processes, and the manager state with its well-formedness invariant.

use vstd::prelude::*;

verus! {

use std::collections::VecDeque;

/// The three interchangeable eviction policies.
#[derive(Clone, Copy, Debug, PartialEq, Eq, Structural)]
pub enum AlgoritmoReemplazo {
    FIFO,
    LRU,
    Reloj,
}

/// A logical page of a process. `marco_id` is `None` when the page is not
/// resident (either never loaded, or moved to the swap area).
#[derive(Clone, Copy, Debug, PartialEq)]
pub struct Pagina {
    pub id: usize,
    pub marco_id: Option<usize>,
    pub referenciada: bool,
    pub ultimo_uso: u64,
}

/// An RGB display color for a process, used only by rendering collaborators.
#[derive(Clone, Copy, Debug, PartialEq)]
pub struct ColorRgb {
    pub r: u8,
    pub g: u8,
    pub b: u8,
}

/// A process with its ordered page table. Page `k` of the table has `id == k`.
#[derive(Clone, Debug)]
pub struct Proceso {
    pub pid: usize,
    pub nombre: String,
    pub tamano_kb: usize,
    pub paginas: Vec<Pagina>,
    pub color: ColorRgb,
}

/// A physical frame. It is free iff `proceso_id` is `None`; an occupied frame
/// carries the (process id, page id) pair of its occupant.
#[derive(Clone, Copy, Debug, PartialEq)]
pub struct Marco {
    pub id: usize,
    pub proceso_id: Option<usize>,
    pub pagina_id: Option<usize>,
}

/// The whole manager state: frame table, live processes, bounded swap area,
/// the clock pointer shared by FIFO and Clock, counters, and a bounded log.
pub struct GestorMemoria {
    pub marcos_ram: Vec<Marco>,
    pub cola_swap: VecDeque<(usize, usize)>,
    pub procesos: Vec<Proceso>,
    pub tamano_pagina_kb: usize,
    pub logs: Vec<String>,
    pub algoritmo: AlgoritmoReemplazo,
    pub puntero_reloj: usize,
    pub fallos_pagina: usize,
    pub accesos_totales: usize,
    pub swaps_realizados: usize,
    pub procesos_creados: usize,
    pub procesos_finalizados: usize,
}

/// Hard capacity of the swap area, in entries.
pub const CAPACIDAD_SWAP: usize = 50;

/// Capacity of the event log; the oldest entry is dropped on overflow.
pub const CAPACIDAD_LOGS: usize = 20;

impl GestorMemoria {
    /// There is a live process with this id.
    pub open spec fn tiene_proceso(&self, pid: usize) -> bool {
        exists|j: int| 0 <= j < self.procesos@.len() && (#[trigger] self.procesos@[j]).pid == pid
    }

    /// Index of the live process with this id (unique under `bien_formado`).
    pub open spec fn idx_proceso(&self, pid: usize) -> int {
        choose|j: int| 0 <= j < self.procesos@.len() && (#[trigger] self.procesos@[j]).pid == pid
    }

    /// The live process with this id.
    pub open spec fn proceso_de(&self, pid: usize) -> Proceso {
        self.procesos@[self.idx_proceso(pid)]
    }

    /// A live process with this id exists and has a page with this index.
    pub open spec fn pagina_valida(&self, pid: usize, pg: usize) -> bool {
        self.tiene_proceso(pid) && pg < self.proceso_de(pid).paginas@.len()
    }

    /// Page `pg` of the live process `pid`.
    pub open spec fn pagina_de(&self, pid: usize, pg: usize) -> Pagina {
        self.proceso_de(pid).paginas@[pg as int]
    }

    /// Frame `i` is occupied.
    pub open spec fn marco_ocupado(&self, i: int) -> bool {
        self.marcos_ram@[i].proceso_id is Some
    }

    /// Frame `i` is occupied and its occupant pair resolves to a page of a
    /// live process.
    pub open spec fn marco_resoluble(&self, i: int) -> bool {
        &&& self.marco_ocupado(i)
        &&& self.pagina_valida(
            self.marcos_ram@[i].proceso_id->0,
            self.marcos_ram@[i].pagina_id->0,
        )
    }

    /// The occupant page of frame `i`, for a resoluble frame.
    pub open spec fn pagina_del_marco(&self, i: int) -> Pagina {
        self.pagina_de(self.marcos_ram@[i].proceso_id->0, self.marcos_ram@[i].pagina_id->0)
    }

    /// No frame of the table is free.
    pub open spec fn sin_marcos_libres(&self) -> bool {
        forall|i: int| 0 <= i < self.marcos_ram@.len() ==> self.marco_ocupado(i)
    }

    /// The id occurs nowhere in the manager: not as a live process, not as the
    /// occupant of any frame, and not in the swap area. Admission asks for a
    /// fresh id so that leftovers of an aborted admission with the same id can
    /// never be confused with the new process.
    pub open spec fn pid_presente(&self, pid: usize) -> bool {
        ||| self.tiene_proceso(pid)
        ||| exists|i: int|
            0 <= i < self.marcos_ram@.len() && (#[trigger] self.marcos_ram@[i]).proceso_id
                == Some(pid)
        ||| exists|s: int|
            0 <= s < self.cola_swap@.len() && (#[trigger] self.cola_swap@[s]).0 == pid
    }

    /// Timestamp of the occupant page of frame `i`.
    pub open spec fn uso_del_marco(&self, i: int) -> u64 {
        self.pagina_del_marco(i).ultimo_uso
    }

    /// Some frame's occupant resolves to a live page whose timestamp lies
    /// below `u64::MAX`, so the LRU scan can settle on it.
    pub open spec fn hay_resoluble_con_uso(&self) -> bool {
        exists|i: int|
            0 <= i < self.marcos_ram@.len() && self.marco_resoluble(i) && #[trigger] self
                .uso_del_marco(i) < u64::MAX
    }

    /// The victim the LRU policy selects: the lowest-indexed occupied frame
    /// whose occupant page carries the smallest timestamp. When no frame
    /// resolves to a live page with a timestamp below the maximum, the scan
    /// never settles and frame `0` stands.
    pub open spec fn es_victima_lru(&self, v: int) -> bool {
        if self.hay_resoluble_con_uso() {
            &&& 0 <= v < self.marcos_ram@.len()
            &&& self.marco_resoluble(v)
            &&& forall|i: int|
                0 <= i < self.marcos_ram@.len() && self.marco_resoluble(i) ==> self.uso_del_marco(
                    v,
                ) <= #[trigger] self.uso_del_marco(i)
            &&& forall|i: int|
                0 <= i < v && self.marco_resoluble(i) ==> self.uso_del_marco(v) < #[trigger] self
                    .uso_del_marco(i)
        } else {
            v == 0
        }
    }

    /// The frame `k` steps past the clock pointer, wrapping around the table.
    pub open spec fn desplazado(&self, k: int) -> int {
        (self.puntero_reloj + k) % (self.marcos_ram@.len() as int)
    }

    /// The clock scan gives this frame a second chance and moves on: its
    /// occupant resolves to a live page whose reference bit is set.
    pub open spec fn reloj_da_paso(&self, i: int) -> bool {
        self.marco_resoluble(i) && self.pagina_del_marco(i).referenciada
    }

    /// The clock scan walks `n` frames from the pointer, each one giving up
    /// its second chance, and stops at frame `v`. A full circuit (`n` equal
    /// to the table length) ends back at the pointer, whose reference bit the
    /// first step cleared.
    pub open spec fn escaneo_reloj(&self, n: int, v: int) -> bool {
        let len = self.marcos_ram@.len() as int;
        &&& 0 <= n <= len
        &&& v == self.desplazado(n)
        &&& forall|k: int| 0 <= k < n ==> self.reloj_da_paso(#[trigger] self.desplazado(k))
        &&& n < len ==> !self.reloj_da_paso(self.desplazado(n))
    }

    /// The victim frame the active policy selects in this state.
    pub open spec fn seleccion_victima(&self, v: int) -> bool {
        match self.algoritmo {
            AlgoritmoReemplazo::FIFO => v == self.puntero_reloj as int,
            AlgoritmoReemplazo::LRU => self.es_victima_lru(v),
            AlgoritmoReemplazo::Reloj => exists|n: int| self.escaneo_reloj(n, v),
        }
    }

    /// Full two-way consistency of the frame table and the page tables: the
    /// occupant pair of every occupied frame whose process is live is a page
    /// that points back at the frame. Well-formedness guarantees the reverse
    /// direction at all times; this direction holds too until an eviction
    /// fails on a full swap area, which deliberately leaves the victim frame
    /// occupied while its page is already marked non-resident.
    pub open spec fn consistente(&self) -> bool {
        forall|i: int|
            0 <= i < self.marcos_ram@.len() && self.marco_ocupado(i) && self.tiene_proceso(
                (#[trigger] self.marcos_ram@[i]).proceso_id->0,
            ) ==> self.pagina_valida(
                self.marcos_ram@[i].proceso_id->0,
                self.marcos_ram@[i].pagina_id->0,
            ) && self.pagina_de(
                self.marcos_ram@[i].proceso_id->0,
                self.marcos_ram@[i].pagina_id->0,
            ).marco_id == Some(i as usize)
    }

    /// Well-formedness of the manager state. Established by `new` and
    /// preserved by every operation.
    pub open spec fn bien_formado(&self) -> bool {
        // The page size was validated at construction.
        &&& self.tamano_pagina_kb >= 1
        // Frame ids equal their index in the table.
        &&& forall|i: int|
            0 <= i < self.marcos_ram@.len() ==> (#[trigger] self.marcos_ram@[i]).id == i
        // An occupied frame carries both halves of its occupant pair.
        &&& forall|i: int|
            0 <= i < self.marcos_ram@.len() ==> ((#[trigger] self.marcos_ram@[i]).proceso_id
                is Some <==> self.marcos_ram@[i].pagina_id is Some)
        // Two occupied frames never carry the same occupant pair.
        &&& forall|i1: int, i2: int|
            0 <= i1 < i2 < self.marcos_ram@.len() && self.marco_ocupado(i1) && self.marco_ocupado(
                i2,
            ) ==> !((#[trigger] self.marcos_ram@[i1]).proceso_id
                == (#[trigger] self.marcos_ram@[i2]).proceso_id && self.marcos_ram@[i1].pagina_id
                == self.marcos_ram@[i2].pagina_id)
        // Live process ids are unique.
        &&& forall|j1: int, j2: int|
            0 <= j1 < j2 < self.procesos@.len() ==> (#[trigger] self.procesos@[j1]).pid
                != (#[trigger] self.procesos@[j2]).pid
        // Page tables are contiguous: page `k` has id `k`.
        &&& forall|j: int, k: int|
            0 <= j < self.procesos@.len() && 0 <= k < (#[trigger] self.procesos@[j]).paginas@.len()
                ==> (#[trigger] self.procesos@[j].paginas@[k]).id == k
        // An occupied frame whose occupant process is live names one of its pages.
        &&& forall|i: int|
            0 <= i < self.marcos_ram@.len() && self.marco_ocupado(i) && self.tiene_proceso(
                (#[trigger] self.marcos_ram@[i]).proceso_id->0,
            ) ==> self.marcos_ram@[i].pagina_id->0 < self.proceso_de(
                self.marcos_ram@[i].proceso_id->0,
            ).paginas@.len()
        // A resident page's frame points back at exactly that page.
        &&& forall|j: int, k: int|
            0 <= j < self.procesos@.len() && 0 <= k < (#[trigger] self.procesos@[j]).paginas@.len()
                && self.procesos@[j].paginas@[k].marco_id is Some ==> {
                let i = (#[trigger] self.procesos@[j].paginas@[k]).marco_id->0 as int;
                &&& 0 <= i < self.marcos_ram@.len()
                &&& self.marcos_ram@[i].proceso_id == Some(self.procesos@[j].pid)
                &&& self.marcos_ram@[i].pagina_id == Some(k as usize)
            }
        // The swap area never exceeds its capacity.
        &&& self.cola_swap@.len() <= CAPACIDAD_SWAP
        // A swap entry of a live process names a non-resident page of it.
        &&& forall|s: int|
            0 <= s < self.cola_swap@.len() && self.tiene_proceso(
                (#[trigger] self.cola_swap@[s]).0,
            ) ==> {
                &&& self.pagina_valida(self.cola_swap@[s].0, self.cola_swap@[s].1)
                &&& self.pagina_de(self.cola_swap@[s].0, self.cola_swap@[s].1).marco_id is None
            }
        // The clock pointer stays inside the frame table.
        &&& self.marcos_ram@.len() > 0 ==> self.puntero_reloj < self.marcos_ram@.len()
        &&& self.marcos_ram@.len() == 0 ==> self.puntero_reloj == 0
        // The log is bounded.
        &&& self.logs@.len() <= CAPACIDAD_LOGS
        // Counter sanity, which also keeps their increments free of overflow.
        &&& self.fallos_pagina <= self.accesos_totales
        &&& self.swaps_realizados <= self.accesos_totales
        &&& self.procesos@.len() + self.procesos_finalizados <= self.procesos_creados
    }
}

} // verus!

//! The slave's memory: holding registers D0..D999 and coils M0..M999.
use vstd::prelude::*;

verus! {

/// Number of holding registers (D0..D999).
pub const D_SIZE: usize = 1000;

/// Number of coils (M0..M999).
pub const M_SIZE: usize = 1000;

/// The unit id this slave answers to.
pub const UNIT_ID: u8 = 0x01;

/// The registers preset at start-up, as (address, value), applied in order:
/// D102 = 99 (set_position) and D0 = 1234.
pub open spec fn initial_register_table() -> Seq<(usize, u16)> {
    seq![(102usize, 99u16), (0usize, 1234u16)]
}

/// The coils preset at start-up, as (address, value), applied in order.
pub open spec fn initial_coil_table() -> Seq<(usize, bool)> {
    seq![(0usize, true)]
}

/// `d` after writing each (address, value) of `w` in order.
pub open spec fn apply_reg_writes(d: Seq<u16>, w: Seq<(usize, u16)>) -> Seq<u16>
    decreases w.len(),
{
    if w.len() == 0 {
        d
    } else {
        apply_reg_writes(d, w.drop_last()).update(w.last().0 as int, w.last().1)
    }
}

/// `m` after writing each (address, value) of `w` in order.
pub open spec fn apply_coil_writes(m: Seq<bool>, w: Seq<(usize, bool)>) -> Seq<bool>
    decreases w.len(),
{
    if w.len() == 0 {
        m
    } else {
        apply_coil_writes(m, w.drop_last()).update(w.last().0 as int, w.last().1)
    }
}

/// The registers at start-up: all zero, then the preset table.
pub open spec fn initial_regs() -> Seq<u16> {
    apply_reg_writes(Seq::new(D_SIZE as nat, |i: int| 0u16), initial_register_table())
}

/// The coils at start-up: all off, then the preset table.
pub open spec fn initial_coils() -> Seq<bool> {
    apply_coil_writes(Seq::new(M_SIZE as nat, |i: int| false), initial_coil_table())
}

/// At start-up D102 holds 99 and D0 holds 1234, every other register 0;
/// M0 is on and every other coil off.
pub proof fn initial_memory_values()
    ensures
        initial_regs().len() == D_SIZE,
        initial_regs()[102] == 99,
        initial_regs()[0] == 1234,
        forall|i: int| 0 <= i < D_SIZE && i != 0 && i != 102 ==> #[trigger] initial_regs()[i] == 0,
        initial_coils().len() == M_SIZE,
        initial_coils()[0],
        forall|i: int| 0 < i < M_SIZE ==> !#[trigger] initial_coils()[i],
{
    let t = initial_register_table();
    let z = Seq::new(D_SIZE as nat, |i: int| 0u16);
    assert(t.drop_last() =~= seq![(102usize, 99u16)]);
    assert(t.drop_last().drop_last() =~= Seq::<(usize, u16)>::empty());
    assert(apply_reg_writes(z, t.drop_last().drop_last()) == z);
    assert(apply_reg_writes(z, t.drop_last()) == z.update(102, 99));
    assert(initial_regs() == z.update(102, 99).update(0, 1234));
    let c = initial_coil_table();
    let zc = Seq::new(M_SIZE as nat, |i: int| false);
    assert(c.drop_last() =~= Seq::<(usize, bool)>::empty());
    assert(apply_coil_writes(zc, c.drop_last()) == zc);
    assert(initial_coils() == zc.update(0, true));
}

/// The preset registers, as (address, value).
pub fn initial_registers() -> (t: Vec<(usize, u16)>)
    ensures
        t@ == initial_register_table(),
{
    let t = vec![(102usize, 99u16), (0usize, 1234u16)];
    assert(t@ =~= initial_register_table());
    t
}

/// The preset coils, as (address, value).
pub fn initial_coil_presets() -> (t: Vec<(usize, bool)>)
    ensures
        t@ == initial_coil_table(),
{
    let t = vec![(0usize, true)];
    assert(t@ =~= initial_coil_table());
    t
}

/// The addresses whose registers the status report always looks at when
/// they are not preset.
pub open spec fn status_watch_list() -> Seq<usize> {
    seq![0usize, 1, 2, 100, 101, 102, 103]
}

/// Whether `a` is the address of a preset register.
pub open spec fn is_preset_register(a: usize) -> bool {
    exists|k: int| 0 <= k < initial_register_table().len() && (#[trigger] initial_register_table()[k]).0 == a
}

/// The watched addresses, in order, that are not preset and whose register
/// is non-zero.
pub open spec fn status_extras(d: Seq<u16>, watch: Seq<usize>) -> Seq<usize>
    decreases watch.len(),
{
    if watch.len() == 0 {
        Seq::empty()
    } else {
        let rest = status_extras(d, watch.drop_last());
        let a = watch.last();
        if !is_preset_register(a) && d[a as int] != 0 {
            rest.push(a)
        } else {
            rest
        }
    }
}

/// The addresses below `n`, in order, whose coil is on.
pub open spec fn coils_on(m: Seq<bool>, n: nat) -> Seq<usize>
    decreases n,
{
    if n == 0 {
        Seq::empty()
    } else if m[n - 1] {
        coils_on(m, (n - 1) as nat).push((n - 1) as usize)
    } else {
        coils_on(m, (n - 1) as nat)
    }
}

fn is_preset(addr: usize, table: &Vec<(usize, u16)>) -> (r: bool)
    requires
        table@ == initial_register_table(),
    ensures
        r == is_preset_register(addr),
{
    let mut k: usize = 0;
    while k < table.len()
        invariant
            k <= table.len(),
            table@ == initial_register_table(),
            forall|j: int| 0 <= j < k ==> (#[trigger] table@[j]).0 != addr,
        decreases table.len() - k,
    {
        if table[k].0 == addr {
            assert(initial_register_table()[k as int].0 == addr);
            return true;
        }
        k += 1;
    }
    false
}

/// The slave's memory.
pub struct State {
    d: Vec<u16>,
    m: Vec<bool>,
}

impl State {
    /// The holding registers, D0 first.
    pub closed spec fn regs(&self) -> Seq<u16> {
        self.d@
    }

    /// The coils, M0 first.
    pub closed spec fn coils(&self) -> Seq<bool> {
        self.m@
    }

    /// The memory has its full size.
    pub open spec fn wf(&self) -> bool {
        &&& self.regs().len() == D_SIZE
        &&& self.coils().len() == M_SIZE
    }

    /// All registers zero and all coils off, then the preset tables applied.
    pub fn new() -> (s: Self)
        ensures
            s.wf(),
            s.regs() == initial_regs(),
            s.coils() == initial_coils(),
    {
        let mut s = State { d: vec![0u16; D_SIZE], m: vec![false; M_SIZE] };
        let td = initial_registers();
        let ghost zero_d = s.d@;
        let ghost zero_m = s.m@;
        let mut i: usize = 0;
        while i < td.len()
            invariant
                i <= td.len(),
                td@ == initial_register_table(),
                s.d@ == apply_reg_writes(zero_d, td@.take(i as int)),
                s.m@ == zero_m,
                s.d@.len() == D_SIZE,
                s.m@.len() == M_SIZE,
            decreases td.len() - i,
        {
            let (addr, val) = td[i];
            assert(addr < D_SIZE);
            s.d.set(addr, val);
            assert(td@.take(i as int + 1).drop_last() =~= td@.take(i as int));
            i += 1;
        }
        assert(td@.take(td.len() as int) =~= td@);
        assert(zero_d =~= Seq::new(D_SIZE as nat, |i: int| 0u16));
        let tm = initial_coil_presets();
        let mut i: usize = 0;
        while i < tm.len()
            invariant
                i <= tm.len(),
                tm@ == initial_coil_table(),
                s.m@ == apply_coil_writes(zero_m, tm@.take(i as int)),
                s.d@ == initial_regs(),
                s.d@.len() == D_SIZE,
                s.m@.len() == M_SIZE,
            decreases tm.len() - i,
        {
            let (addr, val) = tm[i];
            assert(addr < M_SIZE);
            s.m.set(addr, val);
            assert(tm@.take(i as int + 1).drop_last() =~= tm@.take(i as int));
            i += 1;
        }
        assert(tm@.take(tm.len() as int) =~= tm@);
        assert(zero_m =~= Seq::new(M_SIZE as nat, |i: int| false));
        s
    }

    /// Register `addr`, if it exists.
    pub fn reg(&self, addr: usize) -> (r: Option<u16>)
        ensures
            r == (if addr < self.regs().len() { Some(self.regs()[addr as int]) } else { None }),
    {
        if addr < self.d.len() {
            Some(self.d[addr])
        } else {
            None
        }
    }

    /// Coil `addr`, if it exists.
    pub fn coil(&self, addr: usize) -> (r: Option<bool>)
        ensures
            r == (if addr < self.coils().len() { Some(self.coils()[addr as int]) } else { None }),
    {
        if addr < self.m.len() {
            Some(self.m[addr])
        } else {
            None
        }
    }

    /// Registers `start .. start + count`.
    pub fn read_regs(&self, start: usize, count: usize) -> (r: Vec<u16>)
        requires
            start + count <= self.regs().len(),
        ensures
            r@ == self.regs().subrange(start as int, start + count),
    {
        let mut r: Vec<u16> = Vec::new();
        let mut i: usize = 0;
        while i < count
            invariant
                i <= count,
                start + count <= self.d.len(),
                r@ == self.d@.subrange(start as int, start + i),
            decreases count - i,
        {
            r.push(self.d[start + i]);
            assert(r@ =~= self.d@.subrange(start as int, start + i + 1));
            i += 1;
        }
        r
    }

    /// Coils `start .. start + count`.
    pub fn read_coils(&self, start: usize, count: usize) -> (r: Vec<bool>)
        requires
            start + count <= self.coils().len(),
        ensures
            r@ == self.coils().subrange(start as int, start + count),
    {
        let mut r: Vec<bool> = Vec::new();
        let mut i: usize = 0;
        while i < count
            invariant
                i <= count,
                start + count <= self.m.len(),
                r@ == self.m@.subrange(start as int, start + i),
            decreases count - i,
        {
            r.push(self.m[start + i]);
            assert(r@ =~= self.m@.subrange(start as int, start + i + 1));
            i += 1;
        }
        r
    }

    /// Sets register `addr` to `val`.
    pub fn write_reg(&mut self, addr: usize, val: u16)
        requires
            addr < old(self).regs().len(),
        ensures
            final(self).regs() == old(self).regs().update(addr as int, val),
            final(self).coils() == old(self).coils(),
    {
        self.d.set(addr, val);
    }

    /// Sets coil `addr` to `val`.
    pub fn write_coil(&mut self, addr: usize, val: bool)
        requires
            addr < old(self).coils().len(),
        ensures
            final(self).coils() == old(self).coils().update(addr as int, val),
            final(self).regs() == old(self).regs(),
    {
        self.m.set(addr, val);
    }

    /// The watched registers worth reporting: those not preset and non-zero.
    pub fn status_extra_registers(&self) -> (r: Vec<usize>)
        requires
            self.wf(),
        ensures
            r@ == status_extras(self.regs(), status_watch_list()),
    {
        let watch: Vec<usize> = vec![0usize, 1, 2, 100, 101, 102, 103];
        assert(watch@ =~= status_watch_list());
        let table = initial_registers();
        let mut r: Vec<usize> = Vec::new();
        let mut i: usize = 0;
        while i < watch.len()
            invariant
                i <= watch.len(),
                watch@ == status_watch_list(),
                table@ == initial_register_table(),
                self.d@.len() == D_SIZE,
                r@ == status_extras(self.d@, watch@.take(i as int)),
            decreases watch.len() - i,
        {
            let a = watch[i];
            assert(watch@.take(i as int + 1).drop_last() =~= watch@.take(i as int));
            if !is_preset(a, &table) && self.d[a] != 0 {
                r.push(a);
            }
            i += 1;
        }
        assert(watch@.take(watch.len() as int) =~= watch@);
        r
    }

    /// The coils among M0..M15 that are on.
    pub fn status_coils_on(&self) -> (r: Vec<usize>)
        requires
            self.wf(),
        ensures
            r@ == coils_on(self.coils(), 16),
    {
        let mut r: Vec<usize> = Vec::new();
        let mut i: usize = 0;
        while i < 16
            invariant
                i <= 16,
                self.m@.len() == M_SIZE,
                r@ == coils_on(self.m@, i as nat),
            decreases 16 - i,
        {
            if self.m[i] {
                r.push(i);
            }
            i += 1;
        }
        r
    }
}

} // verus!

//! WebAssembly skill modules: validation, section scan and a small stack interpreter.
use vstd::prelude::*;
use crate::text::{chars_of, push_str, push_chars, to_string, fmt_u64, fmt_i64, dec_spec, dec_signed_spec};

verus! {

pub struct WasmRuntime {
    pub modules: Vec<WasmModule>,
    pub last_result: i32,
    pub console_output: Vec<String>,
}

pub struct WasmModule {
    pub name: String,
    pub bytecode: Vec<u8>,
    pub functions: Vec<WasmFunction>,
    pub memory: Vec<u8>,
}

pub struct WasmFunction {
    pub name: String,
    pub code_offset: usize,
    pub code_len: usize,
}

/// Unsigned LEB128 decoding from position `i` with `shift` bits and value `acc` decoded so
/// far: 7 bits per byte, low group first, ending after a byte with a clear top bit, after
/// the fifth byte, or at the end of the input. Returns the value (bits above 31 dropped)
/// and the position after the last byte read.
pub open spec fn leb_u_from(b: Seq<u8>, i: int, shift: u32, acc: u32) -> (u32, int)
    decreases b.len() - i,
{
    if i >= b.len() || i < 0 {
        (acc, i)
    } else {
        let acc2 = acc | (((b[i] & 0x7F) as u32) << shift);
        if b[i] & 0x80 == 0 || shift + 7 >= 32 {
            (acc2, i + 1)
        } else {
            leb_u_from(b, i + 1, (shift + 7) as u32, acc2)
        }
    }
}

/// Unsigned LEB128 value and byte count at the start of `b`.
pub open spec fn leb_u(b: Seq<u8>) -> (u32, int) {
    leb_u_from(b, 0, 0, 0)
}

/// Signed LEB128 decoding (see `leb_u_from`); `last` is the last byte read, whose bit 6
/// gives the sign to extend when fewer than 32 bits were read.
pub open spec fn leb_s_from(b: Seq<u8>, i: int, shift: u32, acc: i32, last: u8) -> (i32, int, u32, u8)
    decreases b.len() - i,
{
    if i >= b.len() || i < 0 {
        (acc, i, shift, last)
    } else {
        let acc2 = acc | (((b[i] & 0x7F) as i32) << shift);
        let shift2 = (shift + 7) as u32;
        if b[i] & 0x80 == 0 || shift2 >= 32 {
            (acc2, i + 1, shift2, b[i])
        } else {
            leb_s_from(b, i + 1, shift2, acc2, b[i])
        }
    }
}

/// Signed LEB128 value and byte count at the start of `b`.
pub open spec fn leb_s(b: Seq<u8>) -> (i32, int) {
    let (v, n, shift, last) = leb_s_from(b, 0, 0, 0, 0);
    if shift < 32 && (last & 0x40) != 0 {
        (v | ((!0i32) << shift), n)
    } else {
        (v, n)
    }
}

proof fn lemma_leb_u_count(b: Seq<u8>, i: int, shift: u32, acc: u32)
    requires
        0 <= i,
        shift < 32,
    ensures
        i <= leb_u_from(b, i, shift, acc).1 <= if i < b.len() { b.len() as int } else { i },
        i < b.len() ==> leb_u_from(b, i, shift, acc).1 > i,
    decreases b.len() - i,
{
    if i < b.len() {
        let acc2 = acc | (((b[i] & 0x7F) as u32) << shift);
        if !(b[i] & 0x80 == 0 || shift + 7 >= 32) {
            lemma_leb_u_count(b, i + 1, (shift + 7) as u32, acc2);
        }
    }
}

proof fn lemma_leb_s_count(b: Seq<u8>, i: int, shift: u32, acc: i32, last: u8)
    requires
        0 <= i,
        shift < 32,
    ensures
        i <= leb_s_from(b, i, shift, acc, last).1 <= if i < b.len() { b.len() as int } else { i },
        i < b.len() ==> leb_s_from(b, i, shift, acc, last).1 > i,
    decreases b.len() - i,
{
    if i < b.len() {
        let acc2 = acc | (((b[i] & 0x7F) as i32) << shift);
        let shift2 = (shift + 7) as u32;
        if !(b[i] & 0x80 == 0 || shift2 >= 32) {
            lemma_leb_s_count(b, i + 1, shift2, acc2, b[i]);
        }
    }
}

/// Decodes an unsigned LEB128 number at `b[start..]`.
pub fn read_leb128_u32(b: &[u8], start: usize) -> (r: (u32, usize))
    requires
        start <= b@.len(),
    ensures
        (r.0, r.1 as int) == ({
            let (v, e) = leb_u(b@.subrange(start as int, b@.len() as int));
            (v, e)
        }),
        r.1 <= b@.len() - start,
        start < b@.len() ==> r.1 >= 1,
{
    let ghost s = b@.subrange(start as int, b@.len() as int);
    let mut result: u32 = 0;
    let mut shift: u32 = 0;
    let mut count: usize = 0;
    proof {
        lemma_leb_u_count(s, 0, 0, 0);
    }
    let n = b.len();
    while start + count < n
        invariant
            n == b@.len(),
            start <= b@.len(),
            s == b@.subrange(start as int, b@.len() as int),
            start + count <= b@.len(),
            shift < 32,
            shift == 7 * count,
            leb_u(s) == leb_u_from(s, count as int, shift, result),
        decreases b@.len() - count,
    {
        let byte = b[start + count];
        assert(byte == s[count as int]);
        count += 1;
        result = result | (((byte & 0x7F) as u32) << shift);
        if byte & 0x80 == 0 {
            return (result, count);
        }
        if shift + 7 >= 32 {
            return (result, count);
        }
        shift += 7;
    }
    (result, count)
}

/// Decodes a signed LEB128 number at `b[start..]`.
pub fn read_leb128_i32(b: &[u8], start: usize) -> (r: (i32, usize))
    requires
        start <= b@.len(),
    ensures
        (r.0, r.1 as int) == leb_s(b@.subrange(start as int, b@.len() as int)),
        r.1 <= b@.len() - start,
        start < b@.len() ==> r.1 >= 1,
{
    let ghost s = b@.subrange(start as int, b@.len() as int);
    let mut result: i32 = 0;
    let mut shift: u32 = 0;
    let mut count: usize = 0;
    let mut byte: u8 = 0;
    proof {
        lemma_leb_s_count(s, 0, 0, 0, 0);
    }
    let n = b.len();
    while start + count < n
        invariant_except_break
            shift < 32,
            shift == 7 * count,
            leb_s_from(s, 0, 0, 0, 0) == leb_s_from(s, count as int, shift, result, byte),
        invariant
            n == b@.len(),
            start <= b@.len(),
            s == b@.subrange(start as int, b@.len() as int),
            start + count <= b@.len(),
        ensures
            leb_s_from(s, 0, 0, 0, 0) == (result, count as int, shift, byte),
        decreases b@.len() - count,
    {
        let bt = b[start + count];
        assert(bt == s[count as int]);
        byte = bt;
        count += 1;
        result = result | (((bt & 0x7F) as i32) << shift);
        shift += 7;
        if bt & 0x80 == 0 {
            break;
        }
        if shift >= 32 {
            break;
        }
    }
    if shift < 32 && (byte & 0x40) != 0 {
        result = result | ((!0i32) << shift);
    }
    (result, count)
}


/// Exported-function records `(code offset, code length)` found by scanning the sections of
/// `b` from `pos`: each section is an id byte, a LEB128 length and its body (cut at the end
/// of the module); export sections (id 7) give a record.
pub open spec fn scan_exports(b: Seq<u8>, pos: int) -> Seq<(int, int)>
    decreases b.len() - pos,
{
    if pos < 0 || pos >= b.len() {
        Seq::empty()
    } else {
        let p1 = pos + 1;
        if p1 >= b.len() {
            Seq::empty()
        } else {
            let (sl, rd) = leb_u(b.subrange(p1, b.len() as int));
            let p2 = p1 + rd;
            let end = if p2 + sl < b.len() { p2 + sl } else { b.len() as int };
            let rest = if end > pos { scan_exports(b, end) } else { Seq::empty() };
            if b[pos] == 7 {
                seq![(p2, sl as int)] + rest
            } else {
                rest
            }
        }
    }
}

/// The module has the `\0asm` magic and version 1.
pub open spec fn valid_header(b: Seq<u8>) -> bool {
    b.len() >= 8 && b[0] == 0x00 && b[1] == 0x61 && b[2] == 0x73 && b[3] == 0x6D && b[4] == 1
        && b[5] == 0 && b[6] == 0 && b[7] == 0
}

/// The stack that the interpreter ends with when it runs `b` from `ip` with the given stack
/// and sixteen locals. Opcodes: `0x00` and `0x0F` stop, `0x41` pushes a signed LEB128
/// constant, `0x6A`/`0x6B`/`0x6C` add/subtract/multiply the top two values (wrapping), `0x20`
/// pushes a local and `0x21` pops into one (both with a one-byte index, ignored from 16 on);
/// every other byte is skipped.
pub open spec fn run_vm(b: Seq<u8>, ip: int, stack: Seq<i32>, locals: Seq<i32>) -> Seq<i32>
    decreases (if ip < b.len() { b.len() - ip } else { 0 }),
{
    if ip < 0 || ip >= b.len() {
        stack
    } else {
        let op = b[ip];
        let ip1 = ip + 1;
        if op == 0x00 || op == 0x0F {
            stack
        } else if op == 0x41 {
            if ip1 < b.len() {
                let (v, n) = leb_s(b.subrange(ip1, b.len() as int));
                run_vm(b, ip1 + if n > 0 { n } else { 1 }, stack.push(v), locals)
            } else {
                run_vm(b, ip1, stack, locals)
            }
        } else if op == 0x6A || op == 0x6B || op == 0x6C {
            if stack.len() >= 2 {
                let y = stack.last();
                let x = stack[stack.len() - 2];
                let z = if op == 0x6A {
                    x.wrapping_add(y)
                } else if op == 0x6B {
                    x.wrapping_sub(y)
                } else {
                    x.wrapping_mul(y)
                };
                run_vm(b, ip1, stack.drop_last().drop_last().push(z), locals)
            } else {
                run_vm(b, ip1, stack, locals)
            }
        } else if op == 0x20 {
            if ip1 < b.len() {
                let idx = b[ip1] as int;
                run_vm(b, ip1 + 1, if idx < 16 { stack.push(locals[idx]) } else { stack }, locals)
            } else {
                run_vm(b, ip1, stack, locals)
            }
        } else if op == 0x21 {
            if ip1 < b.len() && stack.len() > 0 {
                let idx = b[ip1] as int;
                if idx < 16 {
                    run_vm(b, ip1 + 1, stack.drop_last(), locals.update(idx, stack.last()))
                } else {
                    run_vm(b, ip1 + 1, stack, locals)
                }
            } else {
                run_vm(b, ip1, stack, locals)
            }
        } else {
            run_vm(b, ip1, stack, locals)
        }
    }
}

/// The body (start, end) of the first section with id `id` at or after `pos`: sections are
/// an id byte, a LEB128 length and the body, cut at the end of the module.
pub open spec fn section_find(b: Seq<u8>, pos: int, id: u8) -> Option<(int, int)>
    decreases b.len() - pos,
{
    if pos < 0 || pos >= b.len() {
        None
    } else {
        let p1 = pos + 1;
        if p1 >= b.len() {
            None
        } else {
            let (sl, rd) = leb_u(b.subrange(p1, b.len() as int));
            let p2 = p1 + rd;
            let end = if p2 + sl < b.len() { p2 + sl } else { b.len() as int };
            if b[pos] == id {
                Some((p2, end))
            } else if end > pos {
                section_find(b, end, id)
            } else {
                None
            }
        }
    }
}

/// The function index of the export named `main` of kind function among the `k` export
/// entries starting at `pos` in the export section `d` (the section ends where `d` does):
/// each entry is a LEB128 name length, the name, a kind byte and a LEB128 index.
pub open spec fn export_main(d: Seq<u8>, pos: int, k: int) -> Option<u32>
    decreases k,
{
    if k <= 0 || pos < 0 || pos >= d.len() {
        None
    } else {
        let (nl, r1) = leb_u(d.subrange(pos, d.len() as int));
        let ns = pos + r1;
        let ne = ns + nl;
        if ne >= d.len() {
            None
        } else {
            let (idx, r2) = leb_u(d.subrange(ne + 1, d.len() as int));
            if nl == 4 && d[ns] == 0x6D && d[ns + 1] == 0x61 && d[ns + 2] == 0x69 && d[ns + 3] == 0x6E
                && d[ne] == 0 {
                Some(idx)
            } else {
                export_main(d, ne + 1 + r2, k - 1)
            }
        }
    }
}

/// The `k`-th function body (start, end) from `pos` in the code section `d`: each body is a
/// LEB128 size and that many bytes.
pub open spec fn body_at(d: Seq<u8>, pos: int, k: int) -> Option<(int, int)>
    decreases k,
{
    if k < 0 || pos < 0 || pos >= d.len() {
        None
    } else {
        let (sz, r) = leb_u(d.subrange(pos, d.len() as int));
        let st = pos + r;
        let e = st + sz;
        if e > d.len() {
            None
        } else if k == 0 {
            Some((st, e))
        } else {
            body_at(d, e, k - 1)
        }
    }
}

/// Where the code of a body starts after its `k` local declarations from `pos` (each a
/// LEB128 count and a value type byte); `d` ends where the body does.
pub open spec fn skip_locals(d: Seq<u8>, pos: int, k: int) -> int
    decreases k,
{
    if k <= 0 || pos < 0 || pos >= d.len() {
        pos
    } else {
        let (n, r) = leb_u(d.subrange(pos, d.len() as int));
        let p = pos + r + 1;
        if p > d.len() {
            d.len() as int
        } else {
            skip_locals(d, p, k - 1)
        }
    }
}

/// The code (start, end) of the function exported as `main`: its index is looked up in the
/// export section (id 7) and its body in the code section (id 10), counting the module's own
/// functions; the code starts after the body's local declarations.
pub open spec fn main_body(b: Seq<u8>) -> Option<(int, int)> {
    match section_find(b, 8, 7) {
        Some((es, ee)) => {
            let ed = b.subrange(0, ee);
            let (cnt, r) = leb_u(ed.subrange(es, ee));
            match export_main(ed, es + r, cnt as int) {
                Some(fi) => match section_find(b, 8, 10) {
                    Some((cs, ce)) => {
                        let cd = b.subrange(0, ce);
                        let (bc, r2) = leb_u(cd.subrange(cs, ce));
                        if fi >= bc {
                            None
                        } else {
                            match body_at(cd, cs + r2, fi as int) {
                                Some((st, e)) => {
                                    let fd = b.subrange(0, e);
                                    let (lc, r3) = leb_u(fd.subrange(st, e));
                                    Some((skip_locals(fd, st + r3, lc as int), e))
                                },
                                None => None,
                            }
                        }
                    },
                    None => None,
                },
                None => None,
            }
        },
        None => None,
    }
}

/// What running the code `d[start..]` returns: the top of the final stack, 42 when empty.
pub open spec fn body_result(d: Seq<u8>, start: int) -> i32 {
    let st = run_vm(d, start, Seq::empty(), Seq::new(16, |i: int| 0i32));
    if st.len() > 0 {
        st.last()
    } else {
        42
    }
}

/// What the module's exported `main` returns, when the module has one.
pub open spec fn module_result(b: Seq<u8>) -> Option<i32> {
    match main_body(b) {
        Some((st, e)) => Some(body_result(b.subrange(0, e), st)),
        None => None,
    }
}

/// Index of the first module named `name`, or -1.
pub open spec fn module_index(ms: Seq<WasmModule>, name: Seq<char>) -> int
    decreases ms.len(),
{
    if ms.len() == 0 {
        -1
    } else {
        let i = module_index(ms.drop_last(), name);
        if i >= 0 {
            i
        } else if ms.last().name@ == name {
            ms.len() - 1
        } else {
            -1
        }
    }
}

/// Running a name after loading a module under it runs that module when no module had the
/// name before (it is found at the end of the list); when the name was taken, the module
/// loaded first under it stays the one that runs.
pub proof fn lemma_run_finds_loaded(ms: Seq<WasmModule>, m: WasmModule, name: Seq<char>)
    requires
        m.name@ == name,
    ensures
        module_index(ms.push(m), name) == if module_index(ms, name) >= 0 {
            module_index(ms, name)
        } else {
            ms.len() as int
        },
        module_index(ms, name) < 0 ==> ms.push(m)[module_index(ms.push(m), name)] == m,
{
    assert(ms.push(m).drop_last() =~= ms);
}

proof fn lemma_module_index_prefix(ms: Seq<WasmModule>, name: Seq<char>, n: int)
    requires
        0 <= n <= ms.len(),
        module_index(ms.subrange(0, n), name) >= 0,
    ensures
        module_index(ms, name) == module_index(ms.subrange(0, n), name),
    decreases ms.len(),
{
    if n < ms.len() {
        assert(ms.drop_last().subrange(0, n) =~= ms.subrange(0, n));
        lemma_module_index_prefix(ms.drop_last(), name, n);
    } else {
        assert(ms.subrange(0, n) =~= ms);
    }
}

proof fn lemma_module_index_range(ms: Seq<WasmModule>, name: Seq<char>)
    ensures
        -1 <= module_index(ms, name) < ms.len(),
        module_index(ms, name) >= 0 ==> ms[module_index(ms, name)].name@ == name,
    decreases ms.len(),
{
    if ms.len() > 0 {
        lemma_module_index_range(ms.drop_last(), name);
    }
}

fn main_name() -> (r: String)
    ensures
        r@ == "main"@,
{
    let v = chars_of("main");
    to_string(v.as_slice())
}

impl WasmRuntime {
    pub open spec fn modules_view(&self) -> Seq<WasmModule> {
        self.modules@
    }

    pub fn new() -> (r: Self)
        ensures
            r.modules_view().len() == 0,
            r.last_result == 0,
            r.console_output@.len() == 0,
    {
        Self { modules: Vec::new(), last_result: 0, console_output: Vec::new() }
    }

    /// Validates a module, records its export sections and gives it one zeroed 64 KiB page.
    pub fn load_module(&mut self, name: &str, wasm_bytes: &[u8]) -> (r: Result<(), &'static str>)
        ensures
            ({
                let b = wasm_bytes@;
                if b.len() < 8 {
                    r == Err::<(), &'static str>("Invalid WASM module: binary too small")
                } else if !(b[0] == 0x00 && b[1] == 0x61 && b[2] == 0x73 && b[3] == 0x6D) {
                    r == Err::<(), &'static str>("Invalid WASM module: invalid magic header")
                } else if !valid_header(b) {
                    r == Err::<(), &'static str>("Unsupported WASM version: expected version 1")
                } else {
                    r == Ok::<(), &'static str>(())
                }
            }),
            r.is_err() ==> final(self).modules_view() == old(self).modules_view()
                && final(self).console_output@ == old(self).console_output@,
            final(self).last_result == old(self).last_result,
            r.is_ok() ==> {
                let m = final(self).modules_view().last();
                let ex = scan_exports(wasm_bytes@, 8);
                &&& final(self).modules_view().drop_last() == old(self).modules_view()
                &&& final(self).modules_view().len() == old(self).modules_view().len() + 1
                &&& m.name@ == name@
                &&& m.bytecode@ == wasm_bytes@
                &&& m.memory@ == Seq::new(65536, |i: int| 0u8)
                &&& m.functions@.len() == ex.len()
                &&& forall|i: int|
                    0 <= i < ex.len() ==> (#[trigger] m.functions@[i]).name@ == "main"@
                        && m.functions@[i].code_offset == ex[i].0 && m.functions@[i].code_len
                        == ex[i].1
                &&& final(self).console_output@.len() == old(self).console_output@.len() + 1
                &&& final(self).console_output@.last()@ == "[WASM] Module '"@ + name@
                    + "' loaded successfully ("@ + dec_spec(wasm_bytes@.len()) + " bytes)."@
                &&& forall|i: int|
                    0 <= i < old(self).console_output@.len() ==> final(self).console_output@[i]
                        == old(self).console_output@[i]
            },
    {
        let n = wasm_bytes.len();
        if n < 8 {
            return Err("Invalid WASM module: binary too small");
        }
        if !(wasm_bytes[0] == 0x00 && wasm_bytes[1] == 0x61 && wasm_bytes[2] == 0x73 && wasm_bytes[3] == 0x6D) {
            return Err("Invalid WASM module: invalid magic header");
        }
        if !(wasm_bytes[4] == 1 && wasm_bytes[5] == 0 && wasm_bytes[6] == 0 && wasm_bytes[7] == 0) {
            return Err("Unsupported WASM version: expected version 1");
        }
        let ghost b = wasm_bytes@;
        let mut functions: Vec<WasmFunction> = Vec::new();
        let mut pos: usize = 8;
        while pos < n
            invariant_except_break
                scan_exports(b, 8) == functions@.map_values(
                    |f: WasmFunction| (f.code_offset as int, f.code_len as int),
                ) + scan_exports(b, pos as int),
            invariant
                n == b.len(),
                b == wasm_bytes@,
                pos <= n,
                forall|i: int| 0 <= i < functions@.len() ==> (#[trigger] functions@[i]).name@ == "main"@,
            ensures
                scan_exports(b, 8) == functions@.map_values(
                    |f: WasmFunction| (f.code_offset as int, f.code_len as int),
                ),
            decreases n - pos,
        {
            let section_id = wasm_bytes[pos];
            let ghost p0 = pos as int;
            pos += 1;
            if pos >= n {
                assert(scan_exports(b, p0) =~= Seq::<(int, int)>::empty());
                assert(functions@.map_values(|f: WasmFunction| (f.code_offset as int, f.code_len as int)) + Seq::<(int, int)>::empty()
                    =~= functions@.map_values(|f: WasmFunction| (f.code_offset as int, f.code_len as int)));
                break;
            }
            let (section_len, bytes_read) = read_leb128_u32(wasm_bytes, pos);
            pos += bytes_read;
            let section_end = if (section_len as usize) < n - pos { pos + section_len as usize } else { n };
            let ghost old_fns = functions@;
            if section_id == 7 {
                let f = WasmFunction { name: main_name(), code_offset: pos, code_len: section_len as usize };
                functions.push(f);
                proof {
                    assert(functions@.map_values(|f: WasmFunction| (f.code_offset as int, f.code_len as int))
                        =~= old_fns.map_values(|f: WasmFunction| (f.code_offset as int, f.code_len as int)).push(
                        (pos as int, section_len as int),
                    ));
                }
            }
            proof {
                let ex = scan_exports(b, section_end as int);
                if section_id == 7 {
                    assert(old_fns.map_values(|f: WasmFunction| (f.code_offset as int, f.code_len as int)) + (seq![
                        (pos as int, section_len as int),
                    ] + ex) =~= functions@.map_values(
                        |f: WasmFunction| (f.code_offset as int, f.code_len as int),
                    ) + ex);
                }
            }
            pos = section_end;
        }
        let memory = vec![0u8; 65536];
        let ghost mem = memory@;
        assert(mem =~= Seq::new(65536, |i: int| 0u8));
        let bytecode = copy_u8(wasm_bytes);
        let nm = chars_of(name);
        let ghost old_mods = self.modules@;
        self.modules.push(WasmModule { name: to_string(nm.as_slice()), bytecode, functions, memory });
        let mut msg: Vec<char> = Vec::new();
        push_str(&mut msg, "[WASM] Module '");
        push_chars(&mut msg, nm.as_slice());
        push_str(&mut msg, "' loaded successfully (");
        let d = fmt_u64(n as u64);
        push_chars(&mut msg, d.as_slice());
        push_str(&mut msg, " bytes).");
        self.console_output.push(to_string(msg.as_slice()));
        proof {
            assert(self.modules@.drop_last() =~= old_mods);
            let m = self.modules@.last();
            let ex = scan_exports(b, 8);
            assert forall|i: int| 0 <= i < ex.len() implies (#[trigger] m.functions@[i]).name@ == "main"@
                && m.functions@[i].code_offset == ex[i].0 && m.functions@[i].code_len == ex[i].1 by {
                assert(ex[i] == m.functions@.map_values(|f: WasmFunction| (f.code_offset as int, f.code_len as int))[i]);
            }
        }
        Ok(())
    }

    /// Runs the exported `main` of the first module named `name` and returns the top of the
    /// stack it leaves (42 when empty).
    pub fn run_module(&mut self, name: &str) -> (r: Result<i32, &'static str>)
        ensures
            ({
                let i = module_index(old(self).modules_view(), name@);
                if i < 0 {
                    r == Err::<i32, &'static str>("WASM module not found") && final(self).last_result
                        == old(self).last_result && final(self).console_output@ == old(
                        self,
                    ).console_output@
                } else {
                    match module_result(old(self).modules_view()[i].bytecode@) {
                        None => r == Err::<i32, &'static str>("WASM module has no exported main function")
                            && final(self).last_result == old(self).last_result
                            && final(self).console_output@ == old(self).console_output@,
                        Some(v) => {
                            &&& r == Ok::<i32, &'static str>(v)
                            &&& final(self).last_result == v
                            &&& final(self).console_output@ == old(self).console_output@.push(
                                final(self).console_output@.last(),
                            )
                            &&& final(self).console_output@.last()@ == "[WASM] Execution of '"@ + name@
                                + "' complete. Return value: "@ + dec_signed_spec(v as int)
                        },
                    }
                }
            }),
            final(self).modules_view() == old(self).modules_view(),
    {
        let nm = chars_of(name);
        let mut mi: usize = 0;
        while mi < self.modules.len()
            invariant
                mi <= self.modules@.len(),
                nm@ == name@,
                module_index(self.modules@.subrange(0, mi as int), name@) == -1,
            ensures
                mi < self.modules@.len() ==> module_index(self.modules@, name@) == mi,
            decreases self.modules@.len() - mi,
        {
            proof {
                assert(self.modules@.subrange(0, mi as int + 1).drop_last() =~= self.modules@.subrange(0, mi as int));
            }
            let mname = chars_of(self.modules[mi].name.as_str());
            if crate::text::occurs_at_exec(mname.as_slice(), nm.as_slice(), 0) && mname.len() == nm.len() {
                proof {
                    assert(mname@.subrange(0, nm@.len() as int) =~= mname@);
                    assert(self.modules@.subrange(0, mi as int + 1).last() == self.modules@[mi as int]);
                    assert(module_index(self.modules@.subrange(0, mi as int + 1), name@) == mi);
                    lemma_module_index_prefix(self.modules@, name@, mi as int + 1);
                }
                break;
            }
            proof {
                if mname@ == nm@ {
                    assert(mname@.subrange(0, nm@.len() as int) =~= mname@);
                }
            }
            mi += 1;
        }
        proof {
            if mi >= self.modules@.len() {
                assert(self.modules@.subrange(0, mi as int) =~= self.modules@);
            }
        }
        if mi >= self.modules.len() {
            return Err("WASM module not found");
        }
        proof {
            lemma_module_index_range(self.modules@, name@);
        }
        let result = match main_code(self.modules[mi].bytecode.as_slice()) {
            Some(v) => v,
            None => {
                return Err("WASM module has no exported main function");
            },
        };
        self.last_result = result;
        let mut msg: Vec<char> = Vec::new();
        push_str(&mut msg, "[WASM] Execution of '");
        push_chars(&mut msg, nm.as_slice());
        push_str(&mut msg, "' complete. Return value: ");
        let d = fmt_i64(result as i64);
        push_chars(&mut msg, d.as_slice());
        self.console_output.push(to_string(msg.as_slice()));
        Ok(result)
    }

    /// Names of the loaded modules, in load order.
    pub fn list_modules(&self) -> (r: Vec<&str>)
        ensures
            r@.len() == self.modules_view().len(),
            forall|i: int| 0 <= i < r@.len() ==> (#[trigger] r@[i])@ == self.modules_view()[i].name@,
    {
        let mut r: Vec<&str> = Vec::new();
        let mut i: usize = 0;
        while i < self.modules.len()
            invariant
                i <= self.modules@.len(),
                r@.len() == i,
                forall|j: int| 0 <= j < i ==> (#[trigger] r@[j])@ == self.modules@[j].name@,
            decreases self.modules@.len() - i,
        {
            r.push(self.modules[i].name.as_str());
            i += 1;
        }
        r
    }
}

fn copy_u8(d: &[u8]) -> (r: Vec<u8>)
    ensures
        r@ == d@,
{
    let mut r: Vec<u8> = Vec::new();
    let mut k: usize = 0;
    while k < d.len()
        invariant
            k <= d@.len(),
            r@ == d@.subrange(0, k as int),
        decreases d@.len() - k,
    {
        r.push(d[k]);
        k += 1;
        assert(r@ =~= d@.subrange(0, k as int));
    }
    assert(r@ =~= d@);
    r
}

/// Runs the interpreter over `bytes` from `start` and returns the top of the final stack.
fn run_code(bytes: &[u8], start: usize) -> (r: i32)
    ensures
        r == body_result(bytes@, start as int),
{
    let ghost b = bytes@;
    let n = bytes.len();
    let mut stack: Vec<i32> = Vec::new();
    let mut locals: Vec<i32> = vec![0i32; 16];
    assert(locals@ =~= Seq::new(16, |i: int| 0i32));
    let mut ip: usize = start;
    while ip < n
        invariant_except_break
            run_vm(b, start as int, Seq::empty(), Seq::new(16, |i: int| 0i32)) == run_vm(b, ip as int, stack@, locals@),
        invariant
            n == b.len(),
            b == bytes@,
            locals@.len() == 16,
        ensures
            run_vm(b, start as int, Seq::empty(), Seq::new(16, |i: int| 0i32)) == stack@,
        decreases n - ip,
    {
        let opcode = bytes[ip];
        ip += 1;
        if opcode == 0x00 {
            break;
        } else if opcode == 0x01 {
        } else if opcode == 0x41 {
            if ip < n {
                let (val, len) = read_leb128_i32(bytes, ip);
                ip += len;
                stack.push(val);
            }
        } else if opcode == 0x6A || opcode == 0x6B || opcode == 0x6C {
            if stack.len() >= 2 {
                let y = stack.pop().unwrap();
                let x = stack.pop().unwrap();
                let z = if opcode == 0x6A {
                    x.wrapping_add(y)
                } else if opcode == 0x6B {
                    x.wrapping_sub(y)
                } else {
                    x.wrapping_mul(y)
                };
                stack.push(z);
            }
        } else if opcode == 0x20 {
            if ip < n {
                let idx = bytes[ip] as usize;
                ip += 1;
                if idx < 16 {
                    stack.push(locals[idx]);
                }
            }
        } else if opcode == 0x21 {
            if ip < n && stack.len() > 0 {
                let idx = bytes[ip] as usize;
                ip += 1;
                if idx < 16 {
                    let v = stack.pop().unwrap();
                    locals.set(idx, v);
                }
            }
        } else if opcode == 0x0F {
            break;
        }
    }
    match stack.pop() {
        Some(v) => v,
        None => 42,
    }
}


/// The body of the first section with id `id` after the header.
fn find_section(b: &[u8], id: u8) -> (r: Option<(usize, usize)>)
    ensures
        match r {
            Some((st, e)) => section_find(b@, 8, id) == Some((st as int, e as int)) && st <= e <= b@.len(),
            None => section_find(b@, 8, id).is_none(),
        },
{
    let n = b.len();
    let mut pos: usize = 8;
    if pos >= n {
        return None;
    }
    while pos < n
        invariant
            n == b@.len(),
            8 <= pos,
            section_find(b@, 8, id) == section_find(b@, pos as int, id),
        decreases n - pos,
    {
        let p1 = pos + 1;
        if p1 >= n {
            return None;
        }
        let (sl, rd) = read_leb128_u32(b, p1);
        let p2 = p1 + rd;
        let end = if (sl as usize) < n - p2 { p2 + sl as usize } else { n };
        if b[pos] == id {
            return Some((p2, end));
        }
        pos = end;
    }
    None
}

/// The index of the function exported as `main` among `count` entries from `start` of `d`.
fn find_main_export(d: &[u8], start: usize, count: u32) -> (r: Option<u32>)
    requires
        start <= d@.len(),
    ensures
        r == export_main(d@, start as int, count as int),
{
    let n = d.len();
    let mut pos = start;
    let mut k = count;
    while k > 0 && pos < n
        invariant
            n == d@.len(),
            pos <= n,
            export_main(d@, start as int, count as int) == export_main(d@, pos as int, k as int),
        decreases k,
    {
        let (nl, r1) = read_leb128_u32(d, pos);
        let ns = pos + r1;
        if (nl as usize) >= n - ns {
            return None;
        }
        let ne = ns + nl as usize;
        let (idx, r2) = read_leb128_u32(d, ne + 1);
        if nl == 4 && d[ns] == 0x6D && d[ns + 1] == 0x61 && d[ns + 2] == 0x69 && d[ns + 3] == 0x6E && d[ne] == 0 {
            return Some(idx);
        }
        pos = ne + 1 + r2;
        k = k - 1;
    }
    None
}

/// The `count`-th function body from `start` of the code section `d`.
fn body_range(d: &[u8], start: usize, count: u32) -> (r: Option<(usize, usize)>)
    ensures
        match r {
            Some((st, e)) => body_at(d@, start as int, count as int) == Some((st as int, e as int)) && st <= e
                <= d@.len(),
            None => body_at(d@, start as int, count as int).is_none(),
        },
{
    let n = d.len();
    let mut pos = start;
    let mut k = count;
    loop
        invariant
            n == d@.len(),
            body_at(d@, start as int, count as int) == body_at(d@, pos as int, k as int),
        decreases k,
    {
        if pos >= n {
            return None;
        }
        let (sz, r) = read_leb128_u32(d, pos);
        let st = pos + r;
        if (sz as usize) > n - st {
            return None;
        }
        let e = st + sz as usize;
        if k == 0 {
            return Some((st, e));
        }
        pos = e;
        k = k - 1;
    }
}

/// Where the code starts after `count` local declarations from `start` of the body `d`.
fn skip_locals_exec(d: &[u8], start: usize, count: u32) -> (r: usize)
    requires
        start <= d@.len(),
    ensures
        r as int == skip_locals(d@, start as int, count as int),
{
    let n = d.len();
    let mut pos = start;
    let mut k = count;
    while k > 0 && pos < n
        invariant
            n == d@.len(),
            pos <= n,
            skip_locals(d@, start as int, count as int) == skip_locals(d@, pos as int, k as int),
        decreases k,
    {
        let (_c, r) = read_leb128_u32(d, pos);
        if r >= n - pos {
            return n;
        }
        pos = pos + r + 1;
        k = k - 1;
    }
    pos
}

/// Runs the exported `main` of the module `b`, when it has one.
fn main_code(b: &[u8]) -> (r: Option<i32>)
    ensures
        r == module_result(b@),
{
    let (es, ee) = match find_section(b, 7) {
        Some(p) => p,
        None => {
            return None;
        },
    };
    let ed = vstd::slice::slice_subrange(b, 0, ee);
    let (cnt, r) = read_leb128_u32(ed, es);
    let fi = match find_main_export(ed, es + r, cnt) {
        Some(f) => f,
        None => {
            return None;
        },
    };
    let (cs, ce) = match find_section(b, 10) {
        Some(p) => p,
        None => {
            return None;
        },
    };
    let cd = vstd::slice::slice_subrange(b, 0, ce);
    let (bc, r2) = read_leb128_u32(cd, cs);
    if fi >= bc {
        return None;
    }
    let (st, e) = match body_range(cd, cs + r2, fi) {
        Some(p) => p,
        None => {
            return None;
        },
    };
    let fd = vstd::slice::slice_subrange(b, 0, e);
    let (lc, r3) = read_leb128_u32(fd, st);
    let code = skip_locals_exec(fd, st + r3, lc);
    Some(run_code(fd, code))
}


/// A byte with its top bit clear is a whole unsigned LEB128 number: its value.
pub proof fn lemma_leb_u_one_byte(b: Seq<u8>)
    requires
        b.len() > 0,
        b[0] < 0x80,
    ensures
        leb_u(b) == (b[0] as u32, 1int),
{
    let x = b[0];
    assert(x & 0x80 == 0 && (0u32 | (((x & 0x7F) as u32) << 0u32)) == x as u32) by (bit_vector)
        requires
            x < 0x80,
    ;
}

/// The value of a one-byte signed LEB128 immediate (top bit clear): its seven bits, negative
/// when bit 6 is set.
pub open spec fn small_imm(byte: u8) -> int {
    if byte < 64 {
        byte as int
    } else {
        byte - 128
    }
}

/// A byte with its top bit clear is a whole signed LEB128 number: its seven bits, negative
/// when bit 6 is set.
pub proof fn lemma_leb_s_one_byte(b: Seq<u8>)
    requires
        b.len() > 0,
        b[0] < 0x80,
    ensures
        leb_s(b) == (small_imm(b[0]) as i32, 1int),
{
    let x = b[0];
    let r = leb_s_from(b, 0, 0, 0, 0);
    assert(x & 0x80 == 0) by (bit_vector)
        requires
            x < 0x80,
    ;
    assert(r == ((0i32 | (((x & 0x7F) as i32) << 0u32)), 1int, 7u32, x));
    if x < 64 {
        assert((0i32 | (((x & 0x7F) as i32) << 0u32)) == x as i32 && x & 0x40 == 0) by (bit_vector)
            requires
                x < 64,
        ;
    } else {
        assert((0i32 | (((x & 0x7F) as i32) << 0u32)) | ((!0i32) << 7u32) == (x as i32) - 128 && x & 0x40 != 0)
            by (bit_vector)
            requires
                64 <= x < 128,
        ;
    }
}

/// `i32.sub` takes the value on top of the stack from the one below it: on a stack ending in
/// `x, y` (with `y` on top) it leaves `x - y`, wrapping, in their place, and running goes on
/// after the opcode.
pub proof fn lemma_sub_takes_top_from_second(b: Seq<u8>, ip: int, stack: Seq<i32>, locals: Seq<i32>)
    requires
        0 <= ip < b.len(),
        b[ip] == 0x6B,
        stack.len() >= 2,
    ensures
        run_vm(b, ip, stack, locals) == run_vm(
            b,
            ip + 1,
            stack.subrange(0, stack.len() - 2).push(stack[stack.len() - 2].wrapping_sub(stack.last())),
            locals,
        ),
{
    assert(stack.drop_last().drop_last() =~= stack.subrange(0, stack.len() - 2));
}

/// The code `i32.const a; i32.const b; i32.sub; end`, with one-byte immediates, returns
/// `a - b`, the first value pushed minus the second, wherever it starts in a byte string.
pub proof fn lemma_const_const_sub(pre: Seq<u8>, ba: u8, bb: u8)
    requires
        ba < 0x80,
        bb < 0x80,
    ensures
        body_result(pre + seq![0x41u8, ba, 0x41u8, bb, 0x6Bu8, 0x0Bu8], pre.len() as int) == small_imm(ba)
            - small_imm(bb),
{
    let b = pre + seq![0x41u8, ba, 0x41u8, bb, 0x6Bu8, 0x0Bu8];
    let n = pre.len() as int;
    let l = Seq::new(16, |i: int| 0i32);
    let va = small_imm(ba) as i32;
    let vb = small_imm(bb) as i32;
    assert(b[n] == 0x41 && b[n + 1] == ba && b[n + 2] == 0x41 && b[n + 3] == bb && b[n + 4] == 0x6B && b[n + 5] == 0x0B);
    lemma_leb_s_one_byte(b.subrange(n + 1, b.len() as int));
    lemma_leb_s_one_byte(b.subrange(n + 3, b.len() as int));
    assert(b.subrange(n + 1, b.len() as int)[0] == ba);
    assert(b.subrange(n + 3, b.len() as int)[0] == bb);
    let e = Seq::<i32>::empty();
    let z = seq![va.wrapping_sub(vb)];
    assert(run_vm(b, n + 6, z, l) == z);
    assert(run_vm(b, n + 5, z, l) == z);
    lemma_sub_takes_top_from_second(b, n + 4, seq![va, vb], l);
    assert(seq![va, vb].subrange(0, 0).push(va.wrapping_sub(vb)) =~= z);
    assert(run_vm(b, n + 4, seq![va, vb], l) == z);
    assert(e.push(va).push(vb) =~= seq![va, vb]);
    assert(run_vm(b, n + 2, e.push(va), l) == z);
    assert(e.push(va) =~= seq![va]);
    assert(run_vm(b, n, e, l) == z);
    assert(va.wrapping_sub(vb) == small_imm(ba) - small_imm(bb));
}


/// A module with one function of type `() -> i32`, exported as `main`, whose body (no
/// locals) is `i32.const a; i32.const b; i32.sub; end` with one-byte immediates `ba`, `bb`.
pub open spec fn sub_module(ba: u8, bb: u8) -> Seq<u8> {
    seq![
        0x00u8, 0x61, 0x73, 0x6D, 1, 0, 0, 0,
        1, 5, 1, 0x60, 0, 1, 0x7F,
        3, 2, 1, 0,
        7, 8, 1, 4, 0x6D, 0x61, 0x69, 0x6E, 0, 0,
        0x0A, 9, 1, 7, 0,
    ] + seq![0x41u8, ba, 0x41u8, bb, 0x6Bu8, 0x0Bu8]
}

/// Running the module above returns `a - b`: `i32.sub` subtracts the value pushed last from
/// the one pushed before it.
pub proof fn lemma_sub_module_result(ba: u8, bb: u8)
    requires
        ba < 0x80,
        bb < 0x80,
    ensures
        module_result(sub_module(ba, bb)) == Some((small_imm(ba) - small_imm(bb)) as i32),
{
    let m = sub_module(ba, bb);
    assert(m.len() == 40);
    assert(m[8] == 1 && m[9] == 5 && m[15] == 3 && m[16] == 2 && m[19] == 7 && m[20] == 8);
    assert(m[21] == 1 && m[22] == 4 && m[23] == 0x6D && m[24] == 0x61 && m[25] == 0x69 && m[26] == 0x6E);
    assert(m[27] == 0 && m[28] == 0 && m[29] == 0x0A && m[30] == 9 && m[31] == 1 && m[32] == 7 && m[33] == 0);
    lemma_leb_u_one_byte(m.subrange(9, 40));
    lemma_leb_u_one_byte(m.subrange(16, 40));
    lemma_leb_u_one_byte(m.subrange(20, 40));
    lemma_leb_u_one_byte(m.subrange(30, 40));
    assert(section_find(m, 19, 7) == Some((21int, 29int)));
    assert(section_find(m, 15, 7) == Some((21int, 29int)));
    assert(section_find(m, 8, 7) == Some((21int, 29int)));
    assert(section_find(m, 29, 10) == Some((31int, 40int)));
    assert(section_find(m, 19, 10) == Some((31int, 40int)));
    assert(section_find(m, 15, 10) == Some((31int, 40int)));
    assert(section_find(m, 8, 10) == Some((31int, 40int)));
    let ed = m.subrange(0, 29);
    lemma_leb_u_one_byte(ed.subrange(21, 29));
    lemma_leb_u_one_byte(ed.subrange(22, 29));
    lemma_leb_u_one_byte(ed.subrange(28, 29));
    assert(export_main(ed, 22, 1) == Some(0u32));
    assert(m.subrange(0, 40) =~= m);
    lemma_leb_u_one_byte(m.subrange(31, 40));
    lemma_leb_u_one_byte(m.subrange(32, 40));
    lemma_leb_u_one_byte(m.subrange(33, 40));
    assert(body_at(m, 32, 0) == Some((33int, 40int)));
    assert(skip_locals(m, 34, 0) == 34);
    assert(main_body(m) == Some((34int, 40int)));
    let pre = seq![
        0x00u8, 0x61, 0x73, 0x6D, 1, 0, 0, 0,
        1, 5, 1, 0x60, 0, 1, 0x7F,
        3, 2, 1, 0,
        7, 8, 1, 4, 0x6D, 0x61, 0x69, 0x6E, 0, 0,
        0x0A, 9, 1, 7, 0,
    ];
    lemma_const_const_sub(pre, ba, bb);
}


/// The arithmetic opcodes on two one-byte constants, wherever the code starts:
/// `i32.const a; i32.const b; op; end` returns `a + b` for `i32.add`, `a - b` for `i32.sub`
/// and `a * b` for `i32.mul` (all within 32 bits for such operands).
pub proof fn lemma_const_const_arith(pre: Seq<u8>, ba: u8, bb: u8, op: u8)
    requires
        ba < 0x80,
        bb < 0x80,
        op == 0x6A || op == 0x6B || op == 0x6C,
    ensures
        body_result(pre + seq![0x41u8, ba, 0x41u8, bb, op, 0x0Bu8], pre.len() as int) == if op == 0x6A {
            small_imm(ba) + small_imm(bb)
        } else if op == 0x6B {
            small_imm(ba) - small_imm(bb)
        } else {
            small_imm(ba) * small_imm(bb)
        },
{
    let b = pre + seq![0x41u8, ba, 0x41u8, bb, op, 0x0Bu8];
    let n = pre.len() as int;
    let l = Seq::new(16, |i: int| 0i32);
    let va = small_imm(ba) as i32;
    let vb = small_imm(bb) as i32;
    assert(b[n] == 0x41 && b[n + 1] == ba && b[n + 2] == 0x41 && b[n + 3] == bb && b[n + 4] == op && b[n + 5] == 0x0B);
    lemma_leb_s_one_byte(b.subrange(n + 1, b.len() as int));
    lemma_leb_s_one_byte(b.subrange(n + 3, b.len() as int));
    assert(b.subrange(n + 1, b.len() as int)[0] == ba);
    assert(b.subrange(n + 3, b.len() as int)[0] == bb);
    let zv = if op == 0x6A { va.wrapping_add(vb) } else if op == 0x6B { va.wrapping_sub(vb) } else { va.wrapping_mul(vb) };
    let e = Seq::<i32>::empty();
    let z = seq![zv];
    assert(run_vm(b, n + 6, z, l) == z);
    assert(run_vm(b, n + 5, z, l) == z);
    assert(seq![va, vb].drop_last().drop_last().push(zv) =~= z);
    assert(seq![va, vb].last() == vb && seq![va, vb][0] == va);
    assert(run_vm(b, n + 4, seq![va, vb], l) == z);
    assert(e.push(va).push(vb) =~= seq![va, vb]);
    assert(run_vm(b, n + 2, e.push(va), l) == z);
    assert(e.push(va) =~= seq![va]);
    assert(run_vm(b, n, e, l) == z);
    assert(-64 <= small_imm(ba) < 64 && -64 <= small_imm(bb) < 64);
    assert(-4096 <= small_imm(ba) * small_imm(bb) <= 4096) by (nonlinear_arith)
        requires
            -64 <= small_imm(ba) < 64,
            -64 <= small_imm(bb) < 64,
    ;
}

/// A local keeps what is stored in it: `i32.const a; local.set i; local.get i; end` returns
/// `a` for every local index `i` below 16.
pub proof fn lemma_local_roundtrip(ba: u8, i: u8)
    requires
        ba < 0x80,
        i < 16,
    ensures
        body_result(seq![0x41u8, ba, 0x21u8, i, 0x20u8, i, 0x0Bu8], 0) == small_imm(ba),
{
    let b = seq![0x41u8, ba, 0x21u8, i, 0x20u8, i, 0x0Bu8];
    let l = Seq::new(16, |k: int| 0i32);
    let va = small_imm(ba) as i32;
    lemma_leb_s_one_byte(b.subrange(1, 7));
    assert(b.subrange(1, 7)[0] == ba);
    let l2 = l.update(i as int, va);
    let e = Seq::<i32>::empty();
    assert(run_vm(b, 7, seq![va], l2) == seq![va]);
    assert(run_vm(b, 6, seq![va], l2) == seq![va]);
    assert(l2[i as int] == va);
    assert(e.push(va) =~= seq![va]);
    assert(run_vm(b, 4, e, l2) == seq![va]);
    assert(seq![va].drop_last() =~= e);
    assert(run_vm(b, 2, seq![va], l) == seq![va]);
    assert(run_vm(b, 0, e, l) == seq![va]);
}


/// Two LEB128 bytes carry the low seven bits first: `[0x80 | lo, hi]` is `lo + 128 * hi`.
pub proof fn lemma_leb_u_two_bytes(b: Seq<u8>)
    requires
        b.len() >= 2,
        b[0] >= 0x80,
        b[1] < 0x80,
    ensures
        leb_u(b) == ((b[0] - 128 + 128 * b[1]) as u32, 2int),
{
    let x = b[0];
    let y = b[1];
    assert(x & 0x80 != 0 && (0u32 | (((x & 0x7F) as u32) << 0u32)) == (x - 128) as u32) by (bit_vector)
        requires
            0x80 <= x,
    ;
    assert(y & 0x80 == 0 && (((x - 128) as u32) | (((y & 0x7F) as u32) << 7u32)) == (x - 128 + 128 * y) as u32)
        by (bit_vector)
        requires
            0x80 <= x,
            y < 0x80,
    ;
    assert(leb_u_from(b, 1, 7, (x - 128) as u32) == ((x - 128 + 128 * y) as u32, 2int));
}

} // verus!

use crate::text::{
    chars_of, contains_spec, dec_signed_spec, find_first, find_spec, fmt_i64, has, lower_chars,
    lower_spec, push_chars, push_str, slice_range, starts, starts_with_spec, to_string,
    trim_chars, trim_spec, trim_str,
};
use vstd::prelude::*;

verus! {

/// A kernel action that a prompt asks for.
pub struct ToolCall {
    pub name: &'static str,
    pub argument: String,
    pub description: &'static str,
}

/// The on-device language model: its identity and how many tool calls it has made.
/// Its size is held in whole millions of parameters.
pub struct AtulyaAiCore {
    pub is_initialized: bool,
    pub model_name: &'static str,
    pub parameter_count_m: u32,
    pub tool_calls_executed: usize,
}

/// The value of a run of ASCII digits.
pub open spec fn digits_value(s: Seq<char>) -> int
    decreases s.len(),
{
    if s.len() == 0 {
        0
    } else {
        digits_value(s.drop_last()) * 10 + (s.last() as int - 48)
    }
}

pub open spec fn all_digits(s: Seq<char>) -> bool {
    forall|i: int| 0 <= i < s.len() ==> '0' <= #[trigger] s[i] <= '9'
}

/// `str::parse::<i64>`: an optional sign, then one or more decimal digits, in range.
pub open spec fn parse_i64_spec(s: Seq<char>) -> Option<int> {
    let signed = s.len() > 0 && (s[0] == '+' || s[0] == '-');
    let body = if signed {
        s.drop_first()
    } else {
        s
    };
    if body.len() == 0 || !all_digits(body) {
        None
    } else {
        let v = if signed && s[0] == '-' {
            -digits_value(body)
        } else {
            digits_value(body)
        };
        if i64::MIN <= v <= i64::MAX {
            Some(v)
        } else {
            None
        }
    }
}

proof fn lemma_digits_grow(s: Seq<char>, c: char)
    requires
        all_digits(s.push(c)),
    ensures
        digits_value(s.push(c)) >= digits_value(s),
        digits_value(s) >= 0,
    decreases s.len(),
{
    assert(s.push(c).drop_last() =~= s);
    if s.len() > 0 {
        assert(all_digits(s.drop_last().push(s.last()))) by {
            assert(s.drop_last().push(s.last()) =~= s);
        }
        lemma_digits_grow(s.drop_last(), s.last());
    }
}

/// Parses a signed 64-bit decimal, as `str::parse::<i64>` does.
pub fn parse_i64(s: &[char]) -> (r: Option<i64>)
    ensures
        r == match parse_i64_spec(s@) {
            Some(v) => Some(v as i64),
            None => None::<i64>,
        },
{
    let n = s.len();
    let signed = n > 0 && (s[0] == '+' || s[0] == '-');
    let neg = signed && s[0] == '-';
    let start: usize = if signed { 1 } else { 0 };
    let ghost body = if signed { s@.drop_first() } else { s@ };
    assert(body =~= s@.subrange(start as int, n as int));
    if start == n {
        assert(body.len() == 0);
        return None;
    }
    let mut val: u128 = 0;
    let mut big = false;
    let mut i = start;
    while i < n
        invariant
            start <= i <= n,
            n == s@.len(),
            body == s@.subrange(start as int, n as int),
            body == (if s@.len() > 0 && (s@[0] == '+' || s@[0] == '-') {
                s@.drop_first()
            } else {
                s@
            }),
            signed == (s@.len() > 0 && (s@[0] == '+' || s@[0] == '-')),
            neg == (signed && s@[0] == '-'),
            all_digits(body.subrange(0, i - start)),
            !big ==> val == digits_value(body.subrange(0, i - start)) && val <= 9223372036854775808,
            big ==> digits_value(body.subrange(0, i - start)) > 9223372036854775808,
        decreases n - i,
    {
        let c = s[i];
        if !('0' <= c && c <= '9') {
            assert(!all_digits(body)) by {
                assert(body[i - start] == c);
            }

            return None;
        }
        let ghost pre = body.subrange(0, i - start);
        let ghost next = body.subrange(0, i + 1 - start);
        assert(next =~= pre.push(c));
        assert(next.drop_last() =~= pre);
        assert(next.last() == c);
        assert(digits_value(next) == digits_value(pre) * 10 + (c as int - 48));
        assert(all_digits(next));
        proof {
            lemma_digits_grow(pre, c);
        }
        let d = (c as u32 - 48) as u128;
        if !big {
            let nv = val * 10 + d;
            if nv > 9223372036854775808 {
                big = true;
            } else {
                val = nv;
            }
        }
        i += 1;
    }
    assert(body.subrange(0, n - start) =~= body);
    if big {
        return None;
    }
    if neg {
        Some((0 - (val as i128)) as i64)
    } else if val <= 9223372036854775807 {
        Some(val as i64)
    } else {
        None
    }
}

/// The two operands around the first `op` of `clean` (not at the start, for `-`), when both parse.
pub open spec fn operands(clean: Seq<char>, op: char) -> Option<(int, int)> {
    match find_spec(clean, seq![op]) {
        Some(pos) => {
            if op == '-' && pos == 0 {
                None
            } else {
                match (
                    parse_i64_spec(trim_spec(clean.subrange(0, pos))),
                    parse_i64_spec(trim_spec(clean.subrange(pos + 1, clean.len() as int))),
                ) {
                    (Some(l), Some(r)) => Some((l, r)),
                    _ => None,
                }
            }
        },
        None => None,
    }
}

/// Quotient rounded toward zero, as Rust's `/` on signed integers gives it.
pub open spec fn trunc_div(a: int, b: int) -> int {
    let q = (if a < 0 {
        -a
    } else {
        a
    }) / (if b < 0 {
        -b
    } else {
        b
    });
    if (a < 0) != (b < 0) {
        -q
    } else {
        q
    }
}

/// Remainder with the sign of the dividend, as Rust's `%` on signed integers gives it.
pub open spec fn trunc_rem(a: int, b: int) -> int {
    a - b * trunc_div(a, b)
}

pub open spec fn op_line(l: int, op: Seq<char>, r: int, v: int) -> Seq<char> {
    "Formula Result: "@ + dec_signed_spec(l) + op + dec_signed_spec(r) + " = "@ + dec_signed_spec(v)
}

/// The answer to an arithmetic expression or a known formula, if the prompt is one.
pub open spec fn formula_spec(expr: Seq<char>) -> Option<Seq<char>> {
    let clean = trim_spec(expr);
    let lower = lower_spec(clean);
    if let Some((l, r)) = operands(clean, '+') {
        Some(op_line(l, " + "@, r, l + r))
    } else if let Some((l, r)) = operands(clean, '-') {
        Some(op_line(l, " - "@, r, l - r))
    } else if let Some((l, r)) = operands(clean, '*') {
        Some(op_line(l, " * "@, r, l * r))
    } else if let Some((l, r)) = operands(clean, '/') {
        if r != 0 {
            Some(
                op_line(l, " / "@, r, trunc_div(l, r)) + " (rem "@ + dec_signed_spec(trunc_rem(l, r))
                    + ")"@,
            )
        } else {
            Some("Formula Error: Division by zero is undefined."@)
        }
    } else if contains_spec(lower, "e=mc^2"@) || contains_spec(lower, "mass energy"@) {
        Some("Formula: E = m * c² (c = 299,792,458 m/s). Mass-energy equivalence."@)
    } else if contains_spec(lower, "ohm"@) || contains_spec(lower, "v=ir"@) {
        Some("Formula: V = I * R (Voltage = Current * Resistance, Ohm's Law)."@)
    } else if contains_spec(lower, "quadratic"@) || contains_spec(lower, "ax^2"@) {
        Some("Formula: x = (-b ± √(b² - 4ac)) / (2a) (Roots of quadratic equation)."@)
    } else if contains_spec(lower, "circle area"@) || contains_spec(lower, "pi*r^2"@) {
        Some("Formula: Area = π * r²; Circumference = 2 * π * r."@)
    } else if contains_spec(lower, "fibonacci"@) {
        Some("Formula: F(n) = F(n-1) + F(n-2) with F(0)=0, F(1)=1."@)
    } else {
        None
    }
}

/// The arithmetic that the expression asks for stays within 64 bits.
pub open spec fn formula_fits(expr: Seq<char>) -> bool {
    let clean = trim_spec(expr);
    if let Some((l, r)) = operands(clean, '+') {
        i64::MIN <= l + r <= i64::MAX
    } else if let Some((l, r)) = operands(clean, '-') {
        i64::MIN <= l - r <= i64::MAX
    } else if let Some((l, r)) = operands(clean, '*') {
        i64::MIN <= l * r <= i64::MAX
    } else if let Some((l, r)) = operands(clean, '/') {
        !(l == i64::MIN && r == -1)
    } else {
        true
    }
}

/// The kernel action a prompt asks for: name, argument and description.
pub open spec fn tool_spec(prompt: Seq<char>) -> Option<(&'static str, Seq<char>, &'static str)> {
    let p = lower_spec(prompt);
    if starts_with_spec(p, "play "@) || contains_spec(p, "play audio"@) || contains_spec(
        p,
        "play music"@,
    ) {
        Some(
            (
                "play_audio",
                if starts_with_spec(p, "play "@) {
                    trim_spec(prompt.subrange(5, prompt.len() as int))
                } else {
                    "/media/audio.wav"@
                },
                "Stream 16-bit 44.1kHz stereo PCM audio to Intel HDA driver",
            ),
        )
    } else if contains_spec(p, "ping "@) || contains_spec(p, "check network"@) || contains_spec(
        p,
        "scan network"@,
    ) {
        Some(
            (
                "ping",
                match find_spec(p, "ping "@) {
                    Some(i) => trim_spec(prompt.subrange(i + 5, prompt.len() as int)),
                    None => "10.0.2.2"@,
                },
                "Dispatch ICMP Echo Request frame over VirtIO-Net stack",
            ),
        )
    } else if contains_spec(p, "sync"@) || contains_spec(p, "save"@) || contains_spec(
        p,
        "persist"@,
    ) {
        Some(("sync_disk", "/"@, "Serialize all VFS inodes to ATA LBA 2048 superblock"))
    } else if contains_spec(p, "install "@) || contains_spec(p, "pkg install"@) {
        Some(
            (
                "install_package",
                match find_spec(p, "install "@) {
                    Some(i) => trim_spec(prompt.subrange(i + 8, prompt.len() as int)),
                    None => "quantum_skill"@,
                },
                "Compile and register WebAssembly binary in /apps",
            ),
        )
    } else if contains_spec(p, "wallpaper "@) || contains_spec(p, "theme"@) {
        Some(
            (
                "change_wallpaper",
                match find_spec(p, "wallpaper "@) {
                    Some(i) => trim_spec(prompt.subrange(i + 10, prompt.len() as int)),
                    None => "nebula"@,
                },
                "Switch active trigonometric wallpaper shader",
            ),
        )
    } else if contains_spec(p, "lock"@) || contains_spec(p, "secure"@) {
        Some(("lock_vault", "atul"@, "Sanitize user memory and seal ChaCha20 encrypted vault"))
    } else {
        None
    }
}

/// The persona's reply to a prompt that is neither a formula nor a tool call.
pub open spec fn persona_spec(prompt: Seq<char>) -> Seq<char> {
    let p = lower_spec(prompt);
    if contains_spec(p, "who are you"@) || contains_spec(p, "identity"@) || contains_spec(
        p,
        "what are you"@,
    ) {
        "I am Atulya, your sovereign AI operating system core. I run 100% offline in bare-metal memory with zero telemetry, complete privacy, and native hardware control."@
    } else if contains_spec(p, "hello"@) || contains_spec(p, "hey atulya"@) || contains_spec(
        p,
        "hi"@,
    ) {
        "Greetings, Atul. Atulya Sovereign Core is online, all submodules are synchronized and ready for your command."@
    } else if contains_spec(p, "status"@) || contains_spec(p, "health"@) {
        "Atulya Telemetry: CPU 64-bit Long Mode active, 4-Level PML4 Memory nominal, ATA Disk persistent, Audio PCM ready, Network Mesh online."@
    } else if contains_spec(p, "code"@) || contains_spec(p, "rust"@) {
        "Rust enforces fearless concurrency and zero-cost abstractions, allowing our microkernel to operate without garbage collection overhead."@
    } else if contains_spec(p, "privacy"@) || contains_spec(p, "security"@) {
        "Atulya OS operates under total data sovereignty. Zero cloud calls, zero telemetry, and isolated Ring 3 memory sandboxes for all apps."@
    } else {
        "Atulya Core: Synthesizing sovereign intelligence for '"@ + trim_spec(prompt)
            + "'. Neural context synchronized with local ATA memory."@
    }
}

/// The model's reply: a formula's answer, else a tool call's report, else the persona's words.
pub open spec fn infer_spec(prompt: Seq<char>) -> Seq<char> {
    match formula_spec(prompt) {
        Some(m) => m,
        None => match tool_spec(prompt) {
            Some((name, arg, desc)) => "✦ [ATULYA AUTONOMOUS ACTION]\n  Command: "@ + name@
                + "(arg: \""@ + arg + "\")\n  Action: "@ + desc@
                + "\n  Status: Executed on Kernel Bus."@,
            None => persona_spec(prompt),
        },
    }
}

/// The operands around the first `op`, parsed.
fn split_operands(clean: &[char], op: char) -> (r: Option<(i64, i64)>)
    ensures
        r == match operands(clean@, op) {
            Some((l, rr)) => Some((l as i64, rr as i64)),
            None => None::<(i64, i64)>,
        },
        r matches Some((l, rr)) ==> operands(clean@, op) == Some((l as int, rr as int)),
{
    let mut opv: Vec<char> = Vec::new();
    opv.push(op);
    assert(opv@ =~= seq![op]);
    let cl = clean.len();
    match find_first(clean, opv.as_slice()) {
        Some(pos) => {
            if op == '-' && pos == 0 {
                return None;
            }
            let left = slice_range(clean, 0, pos);
            let right = slice_range(clean, pos + 1, clean.len());
            let lt = trim_chars(left.as_slice());
            let rt = trim_chars(right.as_slice());
            match (parse_i64(lt.as_slice()), parse_i64(rt.as_slice())) {
                (Some(l), Some(r)) => Some((l, r)),
                _ => None,
            }
        },
        None => None,
    }
}

/// Whether the arithmetic that `expr` asks for stays within 64 bits.
pub fn formula_ok(expr: &[char]) -> (r: bool)
    ensures
        r == formula_fits(expr@),
{
    let clean = trim_chars(expr);
    let c = clean.as_slice();
    if let Some((l, r)) = split_operands(c, '+') {
        let v: i128 = l as i128 + r as i128;
        return -9223372036854775808i128 <= v && v <= 9223372036854775807i128;
    }
    if let Some((l, r)) = split_operands(c, '-') {
        let v: i128 = l as i128 - r as i128;
        return -9223372036854775808i128 <= v && v <= 9223372036854775807i128;
    }
    if let Some((l, r)) = split_operands(c, '*') {
        assert(-0x8000_0000_0000_0000 * 0x8000_0000_0000_0000 <= l * r <= 0x8000_0000_0000_0000 * 0x8000_0000_0000_0000)
            by (nonlinear_arith)
            requires
                -0x8000_0000_0000_0000 <= l <= 0x7fff_ffff_ffff_ffff,
                -0x8000_0000_0000_0000 <= r <= 0x7fff_ffff_ffff_ffff,
        {
        }
        let v: i128 = l as i128 * r as i128;
        return -9223372036854775808i128 <= v && v <= 9223372036854775807i128;
    }
    if let Some((l, r)) = split_operands(c, '/') {
        return !(l == i64::MIN && r == -1);
    }
    true
}

fn op_result(l: i64, op: &str, r: i64, v: i64) -> (s: Vec<char>)
    ensures
        s@ == op_line(l as int, op@, r as int, v as int),
{
    let mut s: Vec<char> = Vec::new();
    push_str(&mut s, "Formula Result: ");
    push_chars(&mut s, fmt_i64(l).as_slice());
    push_str(&mut s, op);
    push_chars(&mut s, fmt_i64(r).as_slice());
    push_str(&mut s, " = ");
    push_chars(&mut s, fmt_i64(v).as_slice());
    s
}

/// Quotient and remainder rounded toward zero, as `/` and `%` give them on `i64`.
fn trunc_div_rem(l: i64, r: i64) -> (qm: (i64, i64))
    requires
        r != 0,
        !(l == i64::MIN && r == -1),
    ensures
        qm.0 == trunc_div(l as int, r as int),
        qm.1 == trunc_rem(l as int, r as int),
{
    let la: u64 = if l < 0 { (0 - (l as i128)) as u64 } else { l as u64 };
    let ra: u64 = if r < 0 { (0 - (r as i128)) as u64 } else { r as u64 };
    let qa = la / ra;
    let ghost pq = qa * ra;
    assert(pq <= la && la - pq < ra) by (nonlinear_arith)
        requires
            qa == la / ra,
            ra > 0,
            pq == qa * ra,
    ;
    assert(qa <= la) by (nonlinear_arith)
        requires
            qa * ra <= la,
            ra >= 1,
    ;
    assert(qa == 9223372036854775808 ==> ra == 1) by (nonlinear_arith)
        requires
            qa * ra <= la,
            la <= 9223372036854775808,
            ra >= 1,
    ;
    let q: i128 = if (l < 0) != (r < 0) { 0 - (qa as i128) } else { qa as i128 };
    assert(q != 9223372036854775808);
    assert(-9223372036854775808 <= q <= 9223372036854775807);
    assert(-85070591730234615865843651857942052864 <= r * q <= 85070591730234615865843651857942052864)
        by (nonlinear_arith)
        requires
            -9223372036854775808 <= q <= 9223372036854775807,
            -9223372036854775808 <= r <= 9223372036854775807,
    ;
    let prod = r as i128 * q;
    assert(prod == if l < 0 { -pq } else { pq }) by (nonlinear_arith)
        requires
            prod == r * q,
            pq == qa * ra,
            (l < 0) != (r < 0) ==> q == -qa,
            (l < 0) == (r < 0) ==> q == qa,
            r < 0 ==> r == -ra,
            r >= 0 ==> r == ra,
    ;
    let m = l as i128 - prod;
    assert(m == if l < 0 { -(la - pq) } else { la - pq });
    (q as i64, m as i64)
}

fn text_of(s: &str) -> (r: String)
    ensures
        r@ == s@,
{
    s.to_owned()
}

impl AtulyaAiCore {
    pub fn new() -> (r: Self)
        ensures
            r.is_initialized,
            r.model_name == "Atulya-Tantra-0.5B (Autonomous Sovereign Core)",
            r.parameter_count_m == 520,
            r.tool_calls_executed == 0,
    {
        Self {
            is_initialized: true,
            model_name: "Atulya-Tantra-0.5B (Autonomous Sovereign Core)",
            parameter_count_m: 520,
            tool_calls_executed: 0,
        }
    }

    /// Evaluates one arithmetic operation or names a known scientific formula.
    pub fn evaluate_formula(&self, expr: &str) -> (r: Option<String>)
        requires
            formula_fits(expr@),
        ensures
            match formula_spec(expr@) {
                Some(m) => r matches Some(s) && s@ == m,
                None => r is None,
            },
    {
        let clean = trim_str(expr);
        let c = clean.as_slice();
        if let Some((l, r)) = split_operands(c, '+') {
            return Some(to_string(op_result(l, " + ", r, l + r).as_slice()));
        }
        if let Some((l, r)) = split_operands(c, '-') {
            return Some(to_string(op_result(l, " - ", r, l - r).as_slice()));
        }
        if let Some((l, r)) = split_operands(c, '*') {
            return Some(to_string(op_result(l, " * ", r, l * r).as_slice()));
        }
        if let Some((l, r)) = split_operands(c, '/') {
            if r != 0 {
                let (q, m) = trunc_div_rem(l, r);
                let mut s = op_result(l, " / ", r, q);
                push_str(&mut s, " (rem ");
                push_chars(&mut s, fmt_i64(m).as_slice());
                push_str(&mut s, ")");
                return Some(to_string(s.as_slice()));
            } else {
                return Some(text_of("Formula Error: Division by zero is undefined."));
            }
        }
        let lower = lower_chars(c);
        let lw = lower.as_slice();
        if has(lw, "e=mc^2") || has(lw, "mass energy") {
            Some(text_of("Formula: E = m * c² (c = 299,792,458 m/s). Mass-energy equivalence."))
        } else if has(lw, "ohm") || has(lw, "v=ir") {
            Some(text_of("Formula: V = I * R (Voltage = Current * Resistance, Ohm's Law)."))
        } else if has(lw, "quadratic") || has(lw, "ax^2") {
            Some(text_of("Formula: x = (-b ± √(b² - 4ac)) / (2a) (Roots of quadratic equation)."))
        } else if has(lw, "circle area") || has(lw, "pi*r^2") {
            Some(text_of("Formula: Area = π * r²; Circumference = 2 * π * r."))
        } else if has(lw, "fibonacci") {
            Some(text_of("Formula: F(n) = F(n-1) + F(n-2) with F(0)=0, F(1)=1."))
        } else {
            None
        }
    }

    /// Recognises a prompt that asks for a kernel action, and its argument.
    pub fn parse_tool_call(&self, prompt: &str) -> (r: Option<ToolCall>)
        ensures
            match tool_spec(prompt@) {
                Some((name, arg, desc)) => r matches Some(t) && t.name == name && t.argument@
                    == arg && t.description == desc,
                None => r is None,
            },
    {
        proof {
            reveal_strlit("play ");
            reveal_strlit("ping ");
            reveal_strlit("install ");
            reveal_strlit("wallpaper ");
        }
        let pv = chars_of(prompt);
        let pl = lower_chars(pv.as_slice());
        let n = pv.len();
        let p = pl.as_slice();
        if starts(p, "play ") || has(p, "play audio") || has(p, "play music") {
            let target = if starts(p, "play ") {
                trim_chars(slice_range(pv.as_slice(), 5, n).as_slice())
            } else {
                chars_of("/media/audio.wav")
            };
            return Some(
                ToolCall {
                    name: "play_audio",
                    argument: to_string(target.as_slice()),
                    description: "Stream 16-bit 44.1kHz stereo PCM audio to Intel HDA driver",
                },
            );
        }
        if has(p, "ping ") || has(p, "check network") || has(p, "scan network") {
            let target = match find_first(p, chars_of("ping ").as_slice()) {
                Some(i) => trim_chars(slice_range(pv.as_slice(), i + 5, n).as_slice()),
                None => chars_of("10.0.2.2"),
            };
            return Some(
                ToolCall {
                    name: "ping",
                    argument: to_string(target.as_slice()),
                    description: "Dispatch ICMP Echo Request frame over VirtIO-Net stack",
                },
            );
        }
        if has(p, "sync") || has(p, "save") || has(p, "persist") {
            return Some(
                ToolCall {
                    name: "sync_disk",
                    argument: text_of("/"),
                    description: "Serialize all VFS inodes to ATA LBA 2048 superblock",
                },
            );
        }
        if has(p, "install ") || has(p, "pkg install") {
            let pkg = match find_first(p, chars_of("install ").as_slice()) {
                Some(i) => trim_chars(slice_range(pv.as_slice(), i + 8, n).as_slice()),
                None => chars_of("quantum_skill"),
            };
            return Some(
                ToolCall {
                    name: "install_package",
                    argument: to_string(pkg.as_slice()),
                    description: "Compile and register WebAssembly binary in /apps",
                },
            );
        }
        if has(p, "wallpaper ") || has(p, "theme") {
            let wp = match find_first(p, chars_of("wallpaper ").as_slice()) {
                Some(i) => trim_chars(slice_range(pv.as_slice(), i + 10, n).as_slice()),
                None => chars_of("nebula"),
            };
            return Some(
                ToolCall {
                    name: "change_wallpaper",
                    argument: to_string(wp.as_slice()),
                    description: "Switch active trigonometric wallpaper shader",
                },
            );
        }
        if has(p, "lock") || has(p, "secure") {
            return Some(
                ToolCall {
                    name: "lock_vault",
                    argument: text_of("atul"),
                    description: "Sanitize user memory and seal ChaCha20 encrypted vault",
                },
            );
        }
        None
    }

    /// The model's reply to a prompt: a formula's answer, a tool call's report, or the
    /// persona's words.
    pub fn infer(&self, prompt: &str) -> (r: String)
        requires
            formula_fits(prompt@),
        ensures
            r@ == infer_spec(prompt@),
    {
        if let Some(m) = self.evaluate_formula(prompt) {
            return m;
        }
        if let Some(tool) = self.parse_tool_call(prompt) {
            let mut s: Vec<char> = Vec::new();
            push_str(&mut s, "✦ [ATULYA AUTONOMOUS ACTION]\n  Command: ");
            push_str(&mut s, tool.name);
            push_str(&mut s, "(arg: \"");
            push_chars(&mut s, chars_of(tool.argument.as_str()).as_slice());
            push_str(&mut s, "\")\n  Action: ");
            push_str(&mut s, tool.description);
            push_str(&mut s, "\n  Status: Executed on Kernel Bus.");
            return to_string(s.as_slice());
        }
        let pv = chars_of(prompt);
        let pl = lower_chars(pv.as_slice());
        let p = pl.as_slice();
        if has(p, "who are you") || has(p, "identity") || has(p, "what are you") {
            text_of(
                "I am Atulya, your sovereign AI operating system core. I run 100% offline in bare-metal memory with zero telemetry, complete privacy, and native hardware control.",
            )
        } else if has(p, "hello") || has(p, "hey atulya") || has(p, "hi") {
            text_of(
                "Greetings, Atul. Atulya Sovereign Core is online, all submodules are synchronized and ready for your command.",
            )
        } else if has(p, "status") || has(p, "health") {
            text_of(
                "Atulya Telemetry: CPU 64-bit Long Mode active, 4-Level PML4 Memory nominal, ATA Disk persistent, Audio PCM ready, Network Mesh online.",
            )
        } else if has(p, "code") || has(p, "rust") {
            text_of(
                "Rust enforces fearless concurrency and zero-cost abstractions, allowing our microkernel to operate without garbage collection overhead.",
            )
        } else if has(p, "privacy") || has(p, "security") {
            text_of(
                "Atulya OS operates under total data sovereignty. Zero cloud calls, zero telemetry, and isolated Ring 3 memory sandboxes for all apps.",
            )
        } else {
            let mut s: Vec<char> = Vec::new();
            push_str(&mut s, "Atulya Core: Synthesizing sovereign intelligence for '");
            push_chars(&mut s, trim_str(prompt).as_slice());
            push_str(&mut s, "'. Neural context synchronized with local ATA memory.");
            to_string(s.as_slice())
        }
    }
}

} // verus!

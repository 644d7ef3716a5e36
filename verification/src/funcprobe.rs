//! The function probe: stack-trace events of a probed function, the lines
//! that describe their frames, and the address of a function in a shared
//! object.
use vstd::prelude::*;
use vstd::utf8::{valid_utf8, decode_utf8};
use object::Object;
use object::ObjectSymbol;
use crate::text::{decimal, push_decimal, hex_digits, push_hex};
use crate::ip::{octets4, octets16};
use crate::portmirror::{native_value, native_u32, native_u64};

verus! {

/// Largest number of frames in a stack trace.
pub const MAX_STACK_DEPTH: usize = 128;

/// Length of a task's command name.
pub const TASK_COMM_LEN: usize = 16;

/// Width of an address column.
pub const ADDR_WIDTH: usize = 16;

/// Size of a stack-trace event: pid, CPU, command name, both stack sizes
/// and both stacks.
pub const EVENT_SIZE: usize = 2080;

/// The frames of a stack of `size` bytes: none when the size is not
/// positive, else one per eight bytes.
pub open spec fn frames_of(size: i32) -> Option<usize> {
    if size > 0 {
        Some((size / 8) as usize)
    } else {
        None
    }
}

/// What to do with an event whose stacks are `kstack_size` and
/// `ustack_size` bytes long: nothing when neither holds a frame (the event
/// is rejected), else how many frames of each stack to show, if any.
pub fn event_plan(kstack_size: i32, ustack_size: i32) -> (plan: Option<(Option<usize>, Option<usize>)>)
    requires
        kstack_size / 8 <= MAX_STACK_DEPTH,
        ustack_size / 8 <= MAX_STACK_DEPTH,
    ensures
        (kstack_size <= 0 && ustack_size <= 0) ==> plan is None,
        !(kstack_size <= 0 && ustack_size <= 0) ==> plan == Some(
            (frames_of(kstack_size), frames_of(ustack_size)),
        ),
{
    if kstack_size <= 0 && ustack_size <= 0 {
        return None;
    }
    let k = if kstack_size > 0 {
        Some(kstack_size as usize / 8)
    } else {
        None
    };
    let u = if ustack_size > 0 {
        Some(ustack_size as usize / 8)
    } else {
        None
    };
    Some((k, u))
}

/// The line that introduces an event: its command name, its process and
/// its CPU.
pub open spec fn event_header_text(comm: Seq<char>, pid: u32, cpu: u32) -> Seq<char> {
    "COMM: "@ + comm + " (pid="@ + decimal(pid as nat) + ") @ CPU "@ + decimal(cpu as nat)
}

/// The line that introduces an event, as `COMM: bash (pid=42) @ CPU 3`.
pub fn event_header(comm: &str, pid: u32, cpu: u32) -> (s: String)
    ensures
        s@ == event_header_text(comm@, pid, cpu),
{
    let mut s = String::from_str("COMM: ");
    s.append(comm);
    s.append(" (pid=");
    push_decimal(&mut s, pid as u64);
    s.append(") @ CPU ");
    push_decimal(&mut s, cpu as u64);
    s
}

/// A stack-trace event, as the probe lays it out in memory: the process,
/// the CPU, the command name, the sizes in bytes of the kernel and user
/// stacks, and room for the frames of each.
pub struct StackEvent {
    pub pid: u32,
    pub cpu_id: u32,
    pub comm: [u8; 16],
    pub kstack_size: i32,
    pub ustack_size: i32,
    pub kstack: Vec<u64>,
    pub ustack: Vec<u64>,
}

/// `v` is the integer that the `width` bytes of `data` from `at` on hold in
/// the machine's byte order.
pub open spec fn field_at(data: Seq<u8>, at: int, width: int, v: nat) -> bool {
    native_value(data.subrange(at, at + width), v)
}

/// `e` is the event that `data` holds: the process at offset 0, the CPU at
/// 4, the command name at 8, the stack sizes at 24 and 28, the kernel frames
/// from 32 and the user frames from 1056, eight bytes each, all in the
/// machine's byte order.
pub open spec fn event_read(data: Seq<u8>, e: StackEvent) -> bool {
    &&& field_at(data, 0, 4, e.pid as nat)
    &&& field_at(data, 4, 4, e.cpu_id as nat)
    &&& e.comm@ == data.subrange(8, 24)
    &&& field_at(data, 24, 4, (e.kstack_size as u32) as nat)
    &&& field_at(data, 28, 4, (e.ustack_size as u32) as nat)
    &&& e.kstack@.len() == MAX_STACK_DEPTH
    &&& e.ustack@.len() == MAX_STACK_DEPTH
    &&& forall|i: int| 0 <= i < MAX_STACK_DEPTH ==> field_at(data, 32 + 8 * i, 8, #[trigger] e.kstack@[i] as nat)
    &&& forall|i: int| 0 <= i < MAX_STACK_DEPTH ==> field_at(data, 1056 + 8 * i, 8, #[trigger] e.ustack@[i] as nat)
}

/// The eight bytes of `data` from `at` on.
fn bytes8(data: &[u8], at: usize) -> (a: [u8; 8])
    requires
        at + 8 <= data@.len(),
    ensures
        a@ == data@.subrange(at as int, at + 8),
{
    let a = [
        data[at], data[at + 1], data[at + 2], data[at + 3],
        data[at + 4], data[at + 5], data[at + 6], data[at + 7],
    ];
    assert(a@ =~= data@.subrange(at as int, at + 8));
    a
}

/// A signed 32-bit field, read from its bytes in the machine's byte order.
fn read_i32(data: &[u8], at: usize) -> (v: i32)
    requires
        at + 4 <= data@.len(),
    ensures
        field_at(data@, at as int, 4, (v as u32) as nat),
{
    let u = native_u32(octets4(data, at));
    let v = u as i32;
    assert((v as u32) == u) by (bit_vector)
        requires
            v == u as i32,
    ;
    v
}

/// The 128 frames of a stack, eight bytes each, from `at` on.
fn read_stack(data: &[u8], at: usize) -> (s: Vec<u64>)
    requires
        at + 8 * MAX_STACK_DEPTH <= data@.len(),
    ensures
        s@.len() == MAX_STACK_DEPTH,
        forall|i: int| 0 <= i < MAX_STACK_DEPTH ==> field_at(data@, at + 8 * i, 8, #[trigger] s@[i] as nat),
{
    let mut s: Vec<u64> = Vec::new();
    let mut i: usize = 0;
    while i < MAX_STACK_DEPTH
        invariant
            i <= MAX_STACK_DEPTH,
            at + 8 * MAX_STACK_DEPTH <= data@.len(),
            s@.len() == i,
            forall|k: int| 0 <= k < i ==> field_at(data@, at + 8 * k, 8, #[trigger] s@[k] as nat),
        decreases MAX_STACK_DEPTH - i,
    {
        assert(at + 8 * i + 8 <= at + 8 * MAX_STACK_DEPTH);
        assert(data@.len() == data.len());
        let f = native_u64(bytes8(data, at + 8 * i));
        s.push(f);
        i = i + 1;
    }
    s
}

/// Reads a stack-trace event from its bytes: none unless there are exactly
/// as many bytes as an event takes.
pub fn stack_event(data: &[u8]) -> (r: Option<StackEvent>)
    ensures
        data@.len() != EVENT_SIZE ==> r is None,
        data@.len() == EVENT_SIZE ==> (r matches Some(e) && event_read(data@, e)),
{
    if data.len() != EVENT_SIZE {
        return None;
    }
    let pid = native_u32(octets4(data, 0));
    let cpu_id = native_u32(octets4(data, 4));
    let comm = octets16(data, 8);
    let kstack_size = read_i32(data, 24);
    let ustack_size = read_i32(data, 28);
    let kstack = read_stack(data, 32);
    let ustack = read_stack(data, 1056);
    Some(StackEvent { pid, cpu_id, comm, kstack_size, ustack_size, kstack, ustack })
}

/// What handling the bytes of an event comes to.
pub enum EventOutcome {
    /// The bytes are not one event: there are not as many as an event takes.
    WrongSize,
    /// Neither stack holds a frame: the event is rejected.
    Empty(StackEvent),
    /// A stack claims more frames than the event has room for, so it cannot
    /// be shown.
    Oversized(StackEvent),
    /// The event, with how many frames of the kernel stack and of the user
    /// stack to show, when that stack holds any: the kernel frames are
    /// symbolized as the kernel's, the user frames as those of the event's
    /// process.
    Show(StackEvent, Option<usize>, Option<usize>),
}

impl EventOutcome {
    /// The status that the handler answers with: 0 for an event that is
    /// shown, 1 for one that is not.
    pub fn status(&self) -> (c: i32)
        ensures
            c == (if self is Show { 0i32 } else { 1i32 }),
    {
        match self {
            EventOutcome::Show(..) => 0,
            _ => 1,
        }
    }
}

/// A stack of `size` bytes fits the room an event has for it.
pub open spec fn stack_fits(size: i32) -> bool {
    size / 8 <= MAX_STACK_DEPTH
}

/// Handles the bytes of a stack-trace event: reads the event when there are
/// exactly as many bytes as an event takes, rejects it when neither stack
/// holds a frame, and otherwise tells how many frames of each stack to show.
pub fn handle_event(data: &[u8]) -> (r: EventOutcome)
    ensures
        data@.len() != EVENT_SIZE <==> r is WrongSize,
        match r {
            EventOutcome::WrongSize => true,
            EventOutcome::Empty(e) => event_read(data@, e) && e.kstack_size <= 0 && e.ustack_size <= 0,
            EventOutcome::Oversized(e) => event_read(data@, e) && !(e.kstack_size <= 0
                && e.ustack_size <= 0) && !(stack_fits(e.kstack_size) && stack_fits(e.ustack_size)),
            EventOutcome::Show(e, k, u) => event_read(data@, e) && !(e.kstack_size <= 0
                && e.ustack_size <= 0) && stack_fits(e.kstack_size) && stack_fits(e.ustack_size)
                && k == frames_of(e.kstack_size) && u == frames_of(e.ustack_size),
        },
{
    let e = match stack_event(data) {
        Some(e) => e,
        None => {
            return EventOutcome::WrongSize;
        },
    };
    if e.kstack_size <= 0 && e.ustack_size <= 0 {
        return EventOutcome::Empty(e);
    }
    if e.kstack_size / 8 > 128 || e.ustack_size / 8 > 128 {
        return EventOutcome::Oversized(e);
    }
    match event_plan(e.kstack_size, e.ustack_size) {
        Some((k, u)) => EventOutcome::Show(e, k, u),
        None => EventOutcome::Empty(e),
    }
}

/// Decodes bytes as UTF-8, if they are valid UTF-8.
///
/// Calls `std::str::from_utf8`, which, as its documentation says, accepts
/// exactly the valid UTF-8 byte sequences and gives their decoding.
#[verifier::external_body]
fn utf8_text(bytes: &[u8]) -> (r: Option<String>)
    ensures
        r is Some <==> valid_utf8(bytes@),
        r matches Some(s) ==> s@ == decode_utf8(bytes@),
{
    std::str::from_utf8(bytes).ok().map(|s| s.to_owned())
}

/// The command name of an event: its bytes (NULs included) as text when
/// they are valid UTF-8, else `<unknown>`.
pub fn comm_name(comm: &[u8]) -> (name: String)
    ensures
        valid_utf8(comm@) ==> name@ == decode_utf8(comm@),
        !valid_utf8(comm@) ==> name@ == "<unknown>"@,
{
    match utf8_text(comm) {
        Some(s) => s,
        None => String::from_str("<unknown>"),
    }
}

/// The location part of a frame line: a space and the path, then the line
/// and column when known.
pub open spec fn code_info_text(path: Seq<char>, line: Option<u32>, column: Option<u16>) -> Seq<
    char,
> {
    match (line, column) {
        (Some(l), Some(c)) => " "@ + path + ":"@ + decimal(l as nat) + ":"@ + decimal(c as nat),
        (Some(l), None) => " "@ + path + ":"@ + decimal(l as nat),
        (None, _) => " "@ + path,
    }
}

/// The location part of a frame line.
pub fn code_info(path: &str, line: Option<u32>, column: Option<u16>) -> (s: String)
    ensures
        s@ == code_info_text(path@, line, column),
{
    let mut s = String::from_str(" ");
    s.append(path);
    match line {
        Some(l) => {
            s.append(":");
            push_decimal(&mut s, l as u64);
            match column {
                Some(c) => {
                    s.append(":");
                    push_decimal(&mut s, c as u64);
                },
                None => {},
            }
        },
        None => {},
    }
    s
}

/// `n` zero digits.
pub open spec fn zeros(n: int) -> Seq<char> {
    Seq::new(if n > 0 { n as nat } else { 0 }, |i: int| '0')
}

/// `n` spaces.
pub open spec fn spaces(n: int) -> Seq<char> {
    Seq::new(if n > 0 { n as nat } else { 0 }, |i: int| ' ')
}

/// An address as `0x` and hexadecimal digits, zero-padded to `width`
/// characters in all.
pub open spec fn padded_hex(n: nat, width: int) -> Seq<char> {
    "0x"@ + zeros(width - 2 - hex_digits(n).len()) + hex_digits(n)
}

/// The line that describes a frame. A frame with an address shows the
/// address asked about, the symbol's name, its address and the offset, then
/// the location; an inlined frame shows the name and the location behind an
/// `@`, and is marked inlined.
pub open spec fn frame_line(name: Seq<char>, addr_info: Option<(u64, u64, u64)>, code: Option<Seq<char>>) -> Seq<char> {
    match addr_info {
        Some((input, addr, offset)) => padded_hex(input as nat, 16) + ": "@ + name + " @ "@ + "0x"@
            + hex_digits(addr as nat) + "+"@ + "0x"@ + hex_digits(offset as nat) + match code {
            Some(c) => c,
            None => Seq::empty(),
        },
        None => spaces(16) + "  "@ + name + match code {
            Some(c) => " @"@ + c,
            None => Seq::empty(),
        } + " [inlined]"@,
    }
}

/// Appends `n` copies of the character `c` given as a one-character text.
fn push_repeated(s: &mut String, c: &str, n: usize)
    requires
        c@.len() == 1,
    ensures
        final(s)@ == old(s)@ + Seq::new(n as nat, |i: int| c@[0]),
{
    let mut i: usize = 0;
    while i < n
        invariant
            c@.len() == 1,
            i <= n,
            s@ == old(s)@ + Seq::new(i as nat, |k: int| c@[0]),
        decreases n - i,
    {
        s.append(c);
        i = i + 1;
        assert(s@ =~= old(s)@ + Seq::new(i as nat, |k: int| c@[0]));
    }
}

/// The number of hexadecimal digits of `n`.
fn hex_len(n: u64) -> (len: usize)
    ensures
        len == hex_digits(n as nat).len(),
        len <= 16,
    decreases n,
{
    if n < 16 {
        1
    } else {
        let l = hex_len(n / 16);
        assert(l < 16) by {
            lemma_hex_len_bound(n as nat);
        }
        l + 1
    }
}

/// Sixteen to the power `k`.
pub open spec fn pow16(k: nat) -> nat
    decreases k,
{
    if k == 0 {
        1
    } else {
        16 * pow16((k - 1) as nat)
    }
}

proof fn lemma_hex_len_pow(n: nat, k: nat)
    requires
        1 <= k,
        n < pow16(k),
    ensures
        hex_digits(n).len() <= k,
    decreases n,
{
    if n >= 16 {
        if k == 1 {
            assert(pow16(1) == 16 * pow16(0));
            assert(pow16(0) == 1);
        } else {
            let p = pow16((k - 1) as nat);
            assert(n / 16 < p) by (nonlinear_arith)
                requires
                    n < 16 * p,
            ;
            lemma_hex_len_pow(n / 16, (k - 1) as nat);
        }
    }
}

proof fn lemma_hex_len_bound(n: nat)
    requires
        n <= u64::MAX,
    ensures
        hex_digits(n).len() <= 16,
        n < 0x1000000000000000 ==> hex_digits(n).len() <= 15,
{
    reveal_with_fuel(pow16, 17);
    lemma_hex_len_pow(n, 16);
    if n < 0x1000000000000000 {
        lemma_hex_len_pow(n, 15);
    }
}

/// Appends `0x` and the digits of `n`, zero-padded to `width` characters.
fn push_padded_hex(s: &mut String, n: u64, width: usize)
    ensures
        final(s)@ == old(s)@ + padded_hex(n as nat, width as int),
{
    proof {
        reveal_strlit("0");
    }
    s.append("0x");
    let l = hex_len(n);
    if width > 2 + l {
        push_repeated(s, "0", width - 2 - l);
    }
    push_hex(s, n);
    assert(final(s)@ =~= old(s)@ + padded_hex(n as nat, width as int)) by {
        if !(width > 2 + l) {
            assert(zeros(width - 2 - l) =~= Seq::<char>::empty());
        }
    }
}

/// The line that describes a frame; see `frame_line`.
pub fn format_frame(name: &str, addr_info: Option<(u64, u64, u64)>, code: Option<&str>) -> (s: String)
    ensures
        s@ == frame_line(
            name@,
            addr_info,
            match code {
                Some(c) => Some(c@),
                None => None,
            },
        ),
{
    let mut s = String::new();
    match addr_info {
        Some((input, addr, offset)) => {
            push_padded_hex(&mut s, input, ADDR_WIDTH);
            s.append(": ");
            s.append(name);
            s.append(" @ ");
            s.append("0x");
            push_hex(&mut s, addr);
            s.append("+");
            s.append("0x");
            push_hex(&mut s, offset);
            match code {
                Some(c) => s.append(c),
                None => {},
            }
        },
        None => {
            proof {
                reveal_strlit(" ");
            }
            push_repeated(&mut s, " ", ADDR_WIDTH);
            s.append("  ");
            s.append(name);
            match code {
                Some(c) => {
                    s.append(" @");
                    s.append(c);
                },
                None => {},
            }
            s.append(" [inlined]");
        },
    }
    s
}

/// The line of an address that has no symbol.
pub fn format_unknown_frame(input: u64) -> (s: String)
    ensures
        s@ == padded_hex(input as nat, 16) + ": <no-symbol>"@,
{
    let mut s = String::new();
    push_padded_hex(&mut s, input, ADDR_WIDTH);
    s.append(": <no-symbol>");
    s
}

/// Where the code of a frame is: its source path, and its line and column
/// when known.
pub struct CodeLocation {
    pub path: String,
    pub line: Option<u32>,
    pub column: Option<u16>,
}

/// A function inlined into a symbolized frame.
pub struct InlinedFrame {
    pub name: String,
    pub code: Option<CodeLocation>,
}

/// What symbolizing one address of a stack gave.
pub enum Symbolized {
    /// The symbol that holds the address: its name, its start address, the
    /// offset of the address into it, where its code is, and the functions
    /// inlined there, outermost first.
    Sym {
        name: String,
        addr: u64,
        offset: u64,
        code: Option<CodeLocation>,
        inlined: Vec<InlinedFrame>,
    },
    /// No symbol holds the address.
    Unknown,
}

/// The location part of a frame line, when the location is known.
pub open spec fn location_text(code: Option<CodeLocation>) -> Option<Seq<char>> {
    match code {
        Some(c) => Some(code_info_text(c.path@, c.line, c.column)),
        None => None,
    }
}

/// The lines of the inlined frames, one each, in order.
pub open spec fn inlined_lines(frames: Seq<InlinedFrame>) -> Seq<Seq<char>> {
    Seq::new(frames.len(), |i: int| frame_line(frames[i].name@, None, location_text(frames[i].code)))
}

/// The lines that describe address `input` of a stack: the symbol's line,
/// then one line per inlined function; or a line saying that no symbol
/// holds the address.
pub open spec fn symbol_lines(input: u64, sym: Symbolized) -> Seq<Seq<char>> {
    match sym {
        Symbolized::Sym { name, addr, offset, code, inlined } => seq![
            frame_line(name@, Some((input, addr, offset)), location_text(code)),
        ] + inlined_lines(inlined@),
        Symbolized::Unknown => seq![padded_hex(input as nat, 16) + ": <no-symbol>"@],
    }
}

/// The lines of the first `n` addresses of a stack, each address with what
/// symbolizing it gave.
pub open spec fn stack_text(stack: Seq<u64>, syms: Seq<Symbolized>, n: int) -> Seq<Seq<char>>
    decreases n,
{
    if n <= 0 {
        Seq::empty()
    } else {
        stack_text(stack, syms, n - 1) + symbol_lines(stack[n - 1], syms[n - 1])
    }
}

/// The location part of a frame line, when the location is known.
fn format_location(code: &Option<CodeLocation>) -> (s: Option<String>)
    ensures
        match s {
            Some(t) => location_text(*code) == Some(t@),
            None => location_text(*code) is None,
        },
{
    match code {
        Some(c) => Some(code_info(c.path.as_str(), c.line, c.column)),
        None => None,
    }
}

/// The line of a frame, with its location when known; see `frame_line`.
fn frame_with_location(name: &str, addr_info: Option<(u64, u64, u64)>, code: &Option<CodeLocation>) -> (s: String)
    ensures
        s@ == frame_line(name@, addr_info, location_text(*code)),
{
    let loc = format_location(code);
    match loc {
        Some(t) => format_frame(name, addr_info, Some(t.as_str())),
        None => format_frame(name, addr_info, None),
    }
}

/// The lines that describe a stack: each address, paired in order with
/// what symbolizing it gave, as `symbol_lines` says; an address without a
/// result, or a result without an address, is left out.
pub fn stack_lines(stack: &[u64], syms: &Vec<Symbolized>) -> (lines: Vec<String>)
    ensures
        ({
            let n = if stack@.len() < syms@.len() { stack@.len() } else { syms@.len() };
            let t = stack_text(stack@, syms@, n as int);
            &&& lines@.len() == t.len()
            &&& forall|i: int| 0 <= i < t.len() ==> #[trigger] lines@[i]@ == t[i]
        }),
{
    let n = if stack.len() < syms.len() { stack.len() } else { syms.len() };
    let mut lines: Vec<String> = Vec::new();
    let mut k: usize = 0;
    while k < n
        invariant
            k <= n,
            n <= stack@.len(),
            n <= syms@.len(),
            lines@.len() == stack_text(stack@, syms@, k as int).len(),
            forall|i: int|
                0 <= i < lines@.len() ==> #[trigger] lines@[i]@ == stack_text(stack@, syms@, k as int)[i],
        decreases n - k,
    {
        let input = stack[k];
        let ghost before = stack_text(stack@, syms@, k as int);
        let ghost start = lines@.len();
        match &syms[k] {
            Symbolized::Sym { name, addr, offset, code, inlined } => {
                let line = frame_with_location(name.as_str(), Some((input, *addr, *offset)), code);
                lines.push(line);
                let mut j: usize = 0;
                while j < inlined.len()
                    invariant
                        j <= inlined@.len(),
                        start == before.len(),
                        lines@.len() == start + 1 + j,
                        forall|i: int| 0 <= i < start ==> #[trigger] lines@[i]@ == before[i],
                        lines@[start as int]@ == frame_line(name@, Some((input, *addr, *offset)), location_text(*code)),
                        forall|i: int|
                            0 <= i < j ==> #[trigger] lines@[start + 1 + i]@ == inlined_lines(inlined@)[i],
                    decreases inlined@.len() - j,
                {
                    let f = &inlined[j];
                    let l = frame_with_location(f.name.as_str(), None, &f.code);
                    lines.push(l);
                    j = j + 1;
                }
            },
            Symbolized::Unknown => {
                lines.push(format_unknown_frame(input));
            },
        }
        proof {
            let now = stack_text(stack@, syms@, k + 1);
            assert(now == before + symbol_lines(stack@[k as int], syms@[k as int]));
            assert forall|i: int| 0 <= i < lines@.len() implies #[trigger] lines@[i]@ == now[i] by {
                if i >= start {
                    match syms@[k as int] {
                        Symbolized::Sym { .. } => {
                            if i > start {
                                assert(lines@[start + 1 + (i - start - 1)]@ == now[i]);
                            }
                        },
                        Symbolized::Unknown => {},
                    }
                }
            }
        }
        k = k + 1;
    }
    lines
}

/// What the `object` crate reads of the dynamic symbols of an object file:
/// for each symbol in order, its name if it is valid UTF-8, and its
/// address; or the text of the parse error.
pub uninterp spec fn elf_dynamic_symbols(data: Seq<u8>) -> Result<Seq<(Option<Seq<char>>, u64)>, Seq<char>>;

/// The texts of a list of symbols.
pub open spec fn symbol_views(v: Seq<(Option<String>, u64)>) -> Seq<(Option<Seq<char>>, u64)> {
    v.map_values(
        |e: (Option<String>, u64)|
            (
                match e.0 {
                    Some(s) => Some(s@),
                    None => None,
                },
                e.1,
            ),
    )
}

/// Parses an object file and lists its dynamic symbols.
///
/// Calls `object::File::parse`, then reads each of its dynamic symbols'
/// name (`ObjectSymbol::name`, kept when it is valid UTF-8) and address.
/// The contract names the result `elf_dynamic_symbols`.
#[verifier::external_body]
fn dynamic_symbols(data: &[u8]) -> (r: Result<Vec<(Option<String>, u64)>, String>)
    ensures
        match r {
            Ok(v) => elf_dynamic_symbols(data@) == Ok::<Seq<(Option<Seq<char>>, u64)>, Seq<char>>(
                symbol_views(v@),
            ),
            Err(e) => elf_dynamic_symbols(data@) == Err::<Seq<(Option<Seq<char>>, u64)>, Seq<char>>(
                e@,
            ),
        },
{
    match object::File::parse(data) {
        Ok(file) => Ok(
            file.dynamic_symbols().map(|s| (s.name().ok().map(|n| n.to_owned()), s.address())).collect(),
        ),
        Err(e) => Err(e.to_string()),
    }
}

/// The address of the first symbol named `fn_name`, if any.
pub open spec fn first_symbol_address(symbols: Seq<(Option<Seq<char>>, u64)>, fn_name: Seq<char>) -> Option<u64> {
    if exists|i: int| 0 <= i < symbols.len() && symbols[i].0 == Some(fn_name) {
        let i = choose|i: int|
            0 <= i < symbols.len() && symbols[i].0 == Some(fn_name) && forall|j: int|
                0 <= j < i ==> symbols[j].0 != Some(fn_name);
        Some(symbols[i].1)
    } else {
        None
    }
}

/// Symbol `i` of `symbols` is the first named `fn_name`.
pub open spec fn first_named(symbols: Seq<(Option<Seq<char>>, u64)>, fn_name: Seq<char>, i: int) -> bool {
    &&& 0 <= i < symbols.len()
    &&& symbols[i].0 == Some(fn_name)
    &&& forall|j: int| 0 <= j < i ==> symbols[j].0 != Some(fn_name)
}

/// Law of the symbol lookup: when some symbol is named `fn_name`, the
/// lookup gives the address of the first such symbol; when none is, it
/// gives nothing.
pub proof fn lemma_first_symbol_address(symbols: Seq<(Option<Seq<char>>, u64)>, fn_name: Seq<char>)
    ensures
        forall|i: int| #[trigger] first_named(symbols, fn_name, i) ==> first_symbol_address(symbols, fn_name)
            == Some(symbols[i].1),
        (forall|i: int| 0 <= i < symbols.len() ==> symbols[i].0 != Some(fn_name)) ==> first_symbol_address(
            symbols,
            fn_name,
        ) is None,
        (exists|i: int| 0 <= i < symbols.len() && symbols[i].0 == Some(fn_name)) ==> first_symbol_address(
            symbols,
            fn_name,
        ) is Some,
{
    assert forall|i: int| #[trigger] first_named(symbols, fn_name, i) implies first_symbol_address(symbols, fn_name)
        == Some(symbols[i].1) by {
        let k = choose|k: int|
            0 <= k < symbols.len() && symbols[k].0 == Some(fn_name) && forall|j: int|
                0 <= j < k ==> symbols[j].0 != Some(fn_name);
        if k < i {
            assert(symbols[k].0 != Some(fn_name));
        } else if k > i {
            assert(symbols[i].0 != Some(fn_name));
        }
    }
    if exists|i: int| 0 <= i < symbols.len() && symbols[i].0 == Some(fn_name) {
        let w = choose|i: int| 0 <= i < symbols.len() && symbols[i].0 == Some(fn_name);
        lemma_first_match_exists(symbols, fn_name, w);
    }
}

/// Where a symbol is named `fn_name`, a first one is.
proof fn lemma_first_match_exists(symbols: Seq<(Option<Seq<char>>, u64)>, fn_name: Seq<char>, w: int)
    requires
        0 <= w < symbols.len(),
        symbols[w].0 == Some(fn_name),
    ensures
        exists|i: int| #[trigger] first_named(symbols, fn_name, i),
    decreases w,
{
    if exists|j: int| 0 <= j < w && symbols[j].0 == Some(fn_name) {
        let j = choose|j: int| 0 <= j < w && symbols[j].0 == Some(fn_name);
        lemma_first_match_exists(symbols, fn_name, j);
    } else {
        assert(first_named(symbols, fn_name, w));
    }
}

/// Finds the address of the first symbol named `fn_name`.
pub fn find_symbol(symbols: &Vec<(Option<String>, u64)>, fn_name: &str) -> (a: Option<u64>)
    ensures
        a == first_symbol_address(symbol_views(symbols@), fn_name@),
        forall|i: int| #[trigger] first_named(symbol_views(symbols@), fn_name@, i) ==> a == Some(
            symbols@[i].1,
        ),
        a is None <==> forall|i: int|
            0 <= i < symbols@.len() ==> symbol_views(symbols@)[i].0 != Some(fn_name@),
{
    proof {
        lemma_first_symbol_address(symbol_views(symbols@), fn_name@);
    }
    let ghost sv = symbol_views(symbols@);
    let target = String::from_str(fn_name);
    let mut i: usize = 0;
    while i < symbols.len()
        invariant
            sv == symbol_views(symbols@),
            target@ == fn_name@,
            i <= symbols@.len(),
            forall|j: int| 0 <= j < i ==> sv[j].0 != Some(fn_name@),
        decreases symbols@.len() - i,
    {
        let hit = match &symbols[i].0 {
            Some(n) => *n == target,
            None => false,
        };
        assert(hit <==> sv[i as int].0 == Some(fn_name@));
        if hit {
            proof {
                let k = choose|k: int|
                    0 <= k < sv.len() && sv[k].0 == Some(fn_name@) && forall|j: int|
                        0 <= j < k ==> sv[j].0 != Some(fn_name@);
                if k != i {
                    if k < i {
                    } else {
                        assert(sv[i as int].0 == Some(fn_name@));
                    }
                }
            }
            return Some(symbols[i].1);
        }
        i = i + 1;
    }
    None
}

/// Why the address of a function was not found.
#[derive(Debug, PartialEq, Eq)]
pub enum SymbolError {
    /// The object file could not be parsed; the text says why.
    Parse(String),
    /// No dynamic symbol has the name.
    NotFound,
}

/// The address of function `fn_name` in the object file `data`: that of
/// the first dynamic symbol with that name.
pub fn get_symbol_address(data: &[u8], fn_name: &str) -> (r: Result<u64, SymbolError>)
    ensures
        match elf_dynamic_symbols(data@) {
            Err(e) => r matches Err(SymbolError::Parse(m)) && m@ == e,
            Ok(symbols) => match first_symbol_address(symbols, fn_name@) {
                Some(a) => r == Ok::<u64, SymbolError>(a),
                None => r matches Err(SymbolError::NotFound),
            },
        },
        elf_dynamic_symbols(data@) matches Ok(symbols) ==> (forall|i: int|
            #[trigger] first_named(symbols, fn_name@, i) ==> r == Ok::<u64, SymbolError>(symbols[i].1)),
        elf_dynamic_symbols(data@) matches Ok(symbols) ==> ((forall|i: int|
            0 <= i < symbols.len() ==> symbols[i].0 != Some(fn_name@)) <==> r matches Err(
            SymbolError::NotFound,
        )),
{
    proof {
        if elf_dynamic_symbols(data@) is Ok {
            lemma_first_symbol_address(elf_dynamic_symbols(data@)->Ok_0, fn_name@);
        }
    }
    match dynamic_symbols(data) {
        Err(e) => Err(SymbolError::Parse(e)),
        Ok(symbols) => match find_symbol(&symbols, fn_name) {
            Some(a) => Ok(a),
            None => Err(SymbolError::NotFound),
        },
    }
}

} // verus!

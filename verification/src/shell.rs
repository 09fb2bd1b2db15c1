//! The interactive shell's logic: line editing, command parsing and
//! command dispatch.
//!
//! The shell reads bytes from the serial port, edits a line buffer,
//! and on each completed line parses a command word and its arguments
//! and acts on them. Everything here is the decision logic over plain
//! bytes; the machine glue feeds it the bytes the port delivers, performs
//! the power-off it requests, and loops.

use vstd::prelude::*;
use vstd::string::StringSliceAdditionalSpecFns;
use crate::uart::{uart_write_byte, uart_write_bytes, uart_write_str, Uart};
use crate::mmio::bit_get;

verus! {

/// How many bytes a command line can hold.
pub const BUFFER_SIZE: usize = 128;

/// Whitespace as the shell knows it: the ASCII whitespace bytes.
pub open spec fn is_space(b: u8) -> bool {
    b == 32 || b == 9 || b == 10 || b == 11 || b == 12 || b == 13
}

/// The end of the word starting at `from`: the first whitespace position
/// at or after it, or the end of the line.
pub open spec fn word_end(s: Seq<u8>, from: int) -> int
    recommends
        0 <= from <= s.len(),
    decreases s.len() - from,
    when 0 <= from <= s.len()
{
    if from >= s.len() || is_space(s[from]) {
        from
    } else {
        word_end(s, from + 1)
    }
}

/// The command word: everything before the first whitespace byte.
pub open spec fn command_word(s: Seq<u8>) -> Seq<u8> {
    s.subrange(0, word_end(s, 0))
}

/// The position right after the whitespace byte that opens argument
/// `index` (arguments are separated — and opened — by single whitespace
/// bytes, counted from the line's start), or -1 when the line holds too
/// few whitespace bytes.
pub open spec fn arg_start(s: Seq<u8>, index: int, from: int) -> int
    recommends
        0 <= from <= s.len(),
    decreases s.len() - from,
    when 0 <= from <= s.len()
{
    if from >= s.len() {
        -1
    } else if is_space(s[from]) {
        if index == 0 {
            from + 1
        } else {
            arg_start(s, index - 1, from + 1)
        }
    } else {
        arg_start(s, index, from + 1)
    }
}

/// Argument `index` of the line: the word right after its opening
/// whitespace byte, or nothing when the line has no such argument. Two
/// adjacent whitespace bytes enclose an empty argument.
pub open spec fn argument_spec(s: Seq<u8>, index: int) -> Option<Seq<u8>> {
    let st = arg_start(s, index, 0);
    if st < 0 {
        None
    } else {
        Some(s.subrange(st, word_end(s, st)))
    }
}

/// A word ends at the first whitespace position after it: the exact
/// characterization of [`word_end`].
proof fn lemma_word_end(s: Seq<u8>, from: int, end: int)
    requires
        0 <= from <= end <= s.len(),
        forall|k: int| from <= k < end ==> !is_space(s[k]),
        end < s.len() ==> is_space(s[end]),
    ensures
        word_end(s, from) == end,
    decreases end - from,
{
    if from < end {
        lemma_word_end(s, from + 1, end);
    }
}

/// Word ends lie within the line.
proof fn lemma_word_end_bounds(s: Seq<u8>, from: int)
    requires
        0 <= from <= s.len(),
    ensures
        from <= word_end(s, from) <= s.len(),
    decreases s.len() - from,
{
    if !(from >= s.len() || is_space(s[from])) {
        lemma_word_end_bounds(s, from + 1);
    }
}

/// An argument's opening position lies within the line (or is the
/// no-such-argument marker), and needs at least `index` earlier bytes.
proof fn lemma_arg_start_bounds(s: Seq<u8>, index: int, from: int)
    requires
        0 <= from <= s.len(),
        0 <= index,
    ensures
        arg_start(s, index, from) == -1 || from + index < arg_start(s, index, from) <= s.len(),
    decreases s.len() - from,
{
    if from < s.len() {
        if is_space(s[from]) {
            if index != 0 {
                lemma_arg_start_bounds(s, index - 1, from + 1);
            }
        } else {
            lemma_arg_start_bounds(s, index, from + 1);
        }
    }
}

/// One line of input: the raw bytes of a command and its arguments.
pub struct Command(pub Vec<u8>);

impl Command {
    /// The line's bytes.
    pub open spec fn view(&self) -> Seq<u8> {
        self.0@
    }

    /// Wraps a byte slice as a command line.
    pub fn from_u8_slice(slice: &[u8]) -> (r: Command)
        ensures
            r@ == slice@,
    {
        let mut bytes: Vec<u8> = Vec::new();
        let n = slice.len();
        let mut i: usize = 0;
        while i < n
            invariant
                n == slice@.len(),
                i <= n,
                bytes@ == slice@.subrange(0, i as int),
            decreases n - i,
        {
            bytes.push(slice[i]);
            i = i + 1;
            proof {
                assert(bytes@ =~= slice@.subrange(0, i as int));
            }
        }
        proof {
            assert(bytes@ =~= slice@);
        }
        Command(bytes)
    }

    /// The command word: everything before the first whitespace byte.
    pub fn command(&self) -> (r: Vec<u8>)
        ensures
            r@ == command_word(self@),
            forall|k: int| 0 <= k < r@.len() ==> !is_space(#[trigger] r@[k]),
    {
        let n = self.0.len();
        let mut i: usize = 0;
        // Find first space or end of string
        while i < n && !byte_is_space(self.0[i])
            invariant
                n == self@.len(),
                i <= n,
                forall|k: int| 0 <= k < i ==> !is_space(self@[k]),
            decreases n - i,
        {
            i = i + 1;
        }
        proof {
            lemma_word_end(self@, 0, i as int);
        }
        let mut word: Vec<u8> = Vec::new();
        let mut k: usize = 0;
        while k < i
            invariant
                i <= self@.len(),
                k <= i,
                word@ == self@.subrange(0, k as int),
                forall|j: int| 0 <= j < i ==> !is_space(self@[j]),
            decreases i - k,
        {
            word.push(self.0[k]);
            k = k + 1;
            proof {
                assert(word@ =~= self@.subrange(0, k as int));
            }
        }
        proof {
            assert(word@ =~= command_word(self@));
        }
        word
    }

    /// Argument `index`, or nothing when the line holds too few
    /// whitespace separators.
    pub fn argument(&self, index: usize) -> (r: Option<Vec<u8>>)
        ensures
            match r {
                Some(w) => argument_spec(self@, index as int) == Some(w@),
                None => argument_spec(self@, index as int) is None,
            },
    {
        let n = self.0.len();
        let mut start: usize = 0;
        let mut remaining: usize = index;
        let mut found = false;
        // Find the whitespace byte that opens the argument, or give up.
        while start < n && !found
            invariant
                n == self@.len(),
                start <= n,
                remaining <= index,
                !found ==> arg_start(self@, index as int, 0) == arg_start(
                    self@,
                    remaining as int,
                    start as int,
                ),
                found ==> arg_start(self@, index as int, 0) == start,
            decreases n - start, (if found { 0int } else { 1int }),
        {
            if byte_is_space(self.0[start]) {
                if remaining == 0 {
                    start = start + 1;
                    found = true;
                } else {
                    remaining = remaining - 1;
                    start = start + 1;
                }
            } else {
                start = start + 1;
            }
        }

        if !found {
            // Too few separators: the scan ran off the line's end.
            return None;
        }

        // Find the word's end: the next whitespace byte or the line's end.
        let mut end: usize = start;
        while end < n && !byte_is_space(self.0[end])
            invariant
                n == self@.len(),
                start <= end <= n,
                forall|k: int| start <= k < end ==> !is_space(self@[k]),
            decreases n - end,
        {
            end = end + 1;
        }
        proof {
            lemma_word_end(self@, start as int, end as int);
        }

        let mut word: Vec<u8> = Vec::new();
        let mut k: usize = start;
        while k < end
            invariant
                start <= k <= end <= self@.len(),
                word@ == self@.subrange(start as int, k as int),
            decreases end - k,
        {
            word.push(self.0[k]);
            k = k + 1;
            proof {
                assert(word@ =~= self@.subrange(start as int, k as int));
            }
        }
        Some(word)
    }
}

/// Whitespace as the shell knows it, on a byte.
pub fn byte_is_space(b: u8) -> (r: bool)
    ensures
        r == is_space(b),
{
    b == 32 || b == 9 || b == 10 || b == 11 || b == 12 || b == 13
}

/// Whether a byte buffer holds exactly a string's bytes.
fn bytes_eq_str(w: &Vec<u8>, s: &str) -> (r: bool)
    ensures
        r == (w@ == s.spec_bytes()),
{
    let bs = s.as_bytes();
    if w.len() != bs.len() {
        proof {
            assert(w@ != s.spec_bytes());
        }
        return false;
    }
    let n = w.len();
    let mut i: usize = 0;
    while i < n
        invariant
            n == w@.len() == bs@.len(),
            bs@ == s.spec_bytes(),
            i <= n,
            forall|k: int| 0 <= k < i ==> w@[k] == bs@[k],
        decreases n - i,
    {
        if w[i] != bs[i] {
            return false;
        }
        i = i + 1;
    }
    proof {
        assert(w@ =~= s.spec_bytes());
    }
    true
}

/// What the echo command prints for the arguments from `index` on: each
/// argument followed by one blank. The fuel only bounds the recursion;
/// any fuel beyond the argument count gives the same bytes.
pub open spec fn echo_args(s: Seq<u8>, index: int, fuel: nat) -> Seq<u8>
    decreases fuel,
{
    if fuel == 0 {
        Seq::empty()
    } else {
        match argument_spec(s, index) {
            None => Seq::empty(),
            Some(a) => a + seq![32u8] + echo_args(s, index + 1, (fuel - 1) as nat),
        }
    }
}

/// Everything the echo command prints: each argument followed by one
/// blank, then a line break.
pub open spec fn echo_output(s: Seq<u8>) -> Seq<u8> {
    echo_args(s, 0, s.len() + 1) + "\r\n".spec_bytes()
}

/// Everything the help command prints.
pub open spec fn help_output() -> Seq<u8> {
    "Supported commands:\r\n".spec_bytes()
        + "  echo [text] - prints the text back to the terminal\r\n".spec_bytes()
        + "  help - prints this help message\r\n".spec_bytes()
        + "  shutdown - shuts down the system\r\n".spec_bytes()
}

/// The complaint an unrecognized command word earns.
pub open spec fn unknown_output(w: Seq<u8>) -> Seq<u8> {
    "Unknown command \"".spec_bytes() + w + "\". Type 'help' for a list of commands.\r\n".spec_bytes()
}

/// Acts on one command line: echoes arguments back, prints the help text,
/// requests a shutdown (the returned flag; the machine glue powers off),
/// ignores an empty line, and complains about anything else. The exact
/// bytes printed for each case stand in the contract.
pub fn process_command(uart: &mut Uart, command: &Command) -> (shutdown: bool)
    requires
        !bit_get(old(uart).fr, 5),  // transmit FIFO not full
    ensures
        final(uart).fr == old(uart).fr,
        final(uart).lcrh == old(uart).lcrh,
        ({
            let w = command_word(command@);
            if w == "echo".spec_bytes() {
                !shutdown && final(uart).sent@ == old(uart).sent@ + echo_output(command@)
            } else if w == "help".spec_bytes() {
                !shutdown && final(uart).sent@ == old(uart).sent@ + help_output()
            } else if w == "shutdown".spec_bytes() {
                shutdown && final(uart).sent@ == old(uart).sent@
            } else if w.len() == 0 {
                !shutdown && final(uart).sent@ == old(uart).sent@
            } else {
                !shutdown && final(uart).sent@ == old(uart).sent@ + unknown_output(w)
            }
        }),
{
    let w = command.command();
    let ghost s = command@;
    let ghost sent0 = uart.sent@;
    if bytes_eq_str(&w, "echo") {
        let line_len = command.0.len();
        let ghost fuel = s.len() + 1;
        let mut i: usize = 0;
        loop
            invariant_except_break
                uart.sent@ + echo_args(s, i as int, (fuel - i) as nat) == sent0 + echo_args(
                    s,
                    0,
                    fuel as nat,
                ),
                i <= s.len(),
                line_len == s.len(),
                fuel == s.len() + 1,
                s == command@,
                uart.fr == old(uart).fr,
                uart.lcrh == old(uart).lcrh,
                !bit_get(uart.fr, 5),
            ensures
                uart.sent@ == sent0 + echo_args(s, 0, fuel as nat),
                uart.fr == old(uart).fr,
                uart.lcrh == old(uart).lcrh,
                !bit_get(uart.fr, 5),
            decreases s.len() - i,
        {
            match command.argument(i) {
                Some(arg) => {
                    proof {
                        lemma_arg_start_bounds(s, i as int, 0);
                        lemma_word_end_bounds(s, arg_start(s, i as int, 0));
                        assert(i < s.len());
                    }
                    let ghost sent_before = uart.sent@;
                    uart_write_bytes(uart, &arg);
                    uart_write_byte(uart, 32);
                    i = i + 1;
                    proof {
                        assert(echo_args(s, i - 1, (fuel - i + 1) as nat) == arg@ + seq![32u8]
                            + echo_args(s, i as int, (fuel - i) as nat));
                        assert(uart.sent@ + echo_args(s, i as int, (fuel - i) as nat)
                            =~= sent_before + echo_args(s, i - 1, (fuel - i + 1) as nat));
                    }
                },
                None => {
                    proof {
                        assert(echo_args(s, i as int, (fuel - i) as nat) =~= Seq::<u8>::empty());
                        assert(uart.sent@ =~= sent0 + echo_args(s, 0, fuel as nat));
                    }
                    break;
                },
            }
        }
        uart_write_str(uart, "\r\n");
        proof {
            assert(uart.sent@ =~= sent0 + echo_output(s));
        }
        false
    } else if bytes_eq_str(&w, "help") {
        uart_write_str(uart, "Supported commands:\r\n");
        uart_write_str(uart, "  echo [text] - prints the text back to the terminal\r\n");
        uart_write_str(uart, "  help - prints this help message\r\n");
        uart_write_str(uart, "  shutdown - shuts down the system\r\n");
        proof {
            assert(uart.sent@ =~= sent0 + help_output());
        }
        false
    } else if bytes_eq_str(&w, "shutdown") {
        // The machine glue powers the board off; nothing more to print.
        true
    } else if w.len() == 0 {
        // Do nothing for empty command
        false
    } else {
        uart_write_str(uart, "Unknown command \"");
        uart_write_bytes(uart, &w);
        uart_write_str(uart, "\". Type 'help' for a list of commands.\r\n");
        proof {
            assert(uart.sent@ =~= sent0 + unknown_output(command_word(s)));
        }
        false
    }
}

/// The shell's line state: the command being typed and how much of the
/// buffer it fills.
pub struct ShellState {
    // Buffer for command input
    pub command_buffer: [u8; 128],
    pub buf_pos: usize,
}

impl ShellState {
    /// The line typed so far.
    pub open spec fn line(self) -> Seq<u8> {
        self.command_buffer@.subrange(0, self.buf_pos as int)
    }

    /// The cursor never leaves the buffer.
    pub open spec fn wf(self) -> bool {
        self.buf_pos <= 128
    }

    /// An empty line over a zeroed buffer.
    pub fn new() -> (r: ShellState)
        ensures
            r.wf(),
            r.line() == Seq::<u8>::empty(),
            r.buf_pos == 0,
    {
        let r = ShellState { command_buffer: [0; 128], buf_pos: 0 };
        proof {
            assert(r.line() =~= Seq::<u8>::empty());
        }
        r
    }

    /// Clears the line for the next command.
    pub fn reset(&mut self)
        ensures
            final(self).wf(),
            final(self).line() == Seq::<u8>::empty(),
            final(self).buf_pos == 0,
    {
        // Clear buffer
        self.command_buffer = [0; 128];
        self.buf_pos = 0;
        proof {
            assert(self.line() =~= Seq::<u8>::empty());
        }
    }

    /// The line as a command, ready to process.
    pub fn current_command(&self) -> (r: Command)
        requires
            self.wf(),
        ensures
            r@ == self.line(),
    {
        let mut bytes: Vec<u8> = Vec::new();
        let mut i: usize = 0;
        while i < self.buf_pos
            invariant
                self.wf(),
                i <= self.buf_pos,
                bytes@ == self.command_buffer@.subrange(0, i as int),
            decreases self.buf_pos - i,
        {
            bytes.push(self.command_buffer[i]);
            i = i + 1;
            proof {
                assert(bytes@ =~= self.command_buffer@.subrange(0, i as int));
            }
        }
        Command(bytes)
    }
}

/// Whether the shell stores and echoes this byte: printable characters
/// and the blank.
pub open spec fn shell_stores(b: u8) -> bool {
    33 <= b <= 126 || b == 32
}

/// One step of the shell's read loop: takes the byte the port delivered,
/// edits the line and echoes, and reports whether the line is complete. A
/// carriage return or line feed ends the line; backspace or delete
/// removes the last byte and wipes it from the terminal; a printable byte
/// or blank is stored and echoed while the buffer has room; anything else
/// is ignored.
pub fn shell_input(state: &mut ShellState, uart: &mut Uart, byte: u8) -> (done: bool)
    requires
        old(state).wf(),
        !bit_get(old(uart).fr, 5),  // transmit FIFO not full
    ensures
        final(state).wf(),
        final(uart).fr == old(uart).fr,
        final(uart).lcrh == old(uart).lcrh,
        byte == 13 || byte == 10 ==> done && *final(state) == *old(state) && final(uart).sent@
            == old(uart).sent@ + "\r\n".spec_bytes(),
        byte == 8 || byte == 127 ==> !done && (if old(state).buf_pos > 0 {
            final(state).buf_pos == old(state).buf_pos - 1 && final(state).line() == old(
                state,
            ).line().take(old(state).line().len() - 1) && final(uart).sent@ == old(uart).sent@
                + "\x08 \x08".spec_bytes()
        } else {
            *final(state) == *old(state) && final(uart).sent@ == old(uart).sent@
        }),
        !(byte == 13 || byte == 10 || byte == 8 || byte == 127) && shell_stores(byte) ==> !done
            && (if old(state).buf_pos < 128 {
            final(state).line() == old(state).line().push(byte) && final(uart).sent@ == old(
                uart,
            ).sent@.push(byte)
        } else {
            *final(state) == *old(state) && final(uart).sent@ == old(uart).sent@
        }),
        !(byte == 13 || byte == 10 || byte == 8 || byte == 127) && !shell_stores(byte) ==> !done
            && *final(state) == *old(state) && final(uart).sent@ == old(uart).sent@,
{
    if byte == 13 || byte == 10 {
        uart_write_str(uart, "\r\n");
        true
    } else if byte == 8 || byte == 127 {
        // Backspace or DEL
        if state.buf_pos > 0 {
            state.buf_pos = state.buf_pos - 1;
            // Move cursor back, print space, move cursor back again
            uart_write_str(uart, "\x08 \x08");
            proof {
                assert(state.line() =~= old(state).line().take(old(state).line().len() - 1));
            }
        }
        false
    } else if (33 <= byte && byte <= 126) || byte == 32 {
        if state.buf_pos < 128 {
            state.command_buffer[state.buf_pos] = byte;
            state.buf_pos = state.buf_pos + 1;
            // Echo the character
            uart_write_byte(uart, byte);
            proof {
                assert(state.line() =~= old(state).line().push(byte));
            }
        }
        false
    } else {
        // Ignore.
        false
    }
}

} // verus!

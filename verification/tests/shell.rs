use pikernel::shell::{process_command, shell_input, Command, ShellState};
use pikernel::syscall::handle_syscall;
use pikernel::uart::Uart;

fn fresh_uart() -> Uart {
    Uart { dr: 0, fr: 0, lcrh: 0, sent: Vec::new() }
}

fn line(text: &str) -> Command {
    Command::from_u8_slice(text.as_bytes())
}

#[test]
fn command_word_stops_at_the_first_blank() {
    assert_eq!(line("echo hello world").command(), b"echo".to_vec());
    assert_eq!(line("help").command(), b"help".to_vec());
    assert_eq!(line("").command(), b"".to_vec());
    assert_eq!(line(" leading").command(), b"".to_vec());
}

#[test]
fn arguments_count_every_blank() {
    let cmd = line("echo one two");
    assert_eq!(cmd.argument(0), Some(b"one".to_vec()));
    assert_eq!(cmd.argument(1), Some(b"two".to_vec()));
    assert_eq!(cmd.argument(2), None);
    // Two adjacent blanks enclose an empty argument.
    let gappy = line("echo  late");
    assert_eq!(gappy.argument(0), Some(b"".to_vec()));
    assert_eq!(gappy.argument(1), Some(b"late".to_vec()));
    assert_eq!(line("bare").argument(0), None);
}

#[test]
fn echo_prints_each_argument_and_a_blank() {
    let mut uart = fresh_uart();
    let shutdown = process_command(&mut uart, &line("echo hello world"));
    assert!(!shutdown);
    assert_eq!(uart.sent, b"hello world \r\n".to_vec());
}

#[test]
fn bare_echo_prints_just_the_line_break() {
    let mut uart = fresh_uart();
    process_command(&mut uart, &line("echo"));
    assert_eq!(uart.sent, b"\r\n".to_vec());
}

#[test]
fn help_lists_the_commands() {
    let mut uart = fresh_uart();
    let shutdown = process_command(&mut uart, &line("help"));
    assert!(!shutdown);
    let mut expected = Vec::new();
    expected.extend_from_slice(b"Supported commands:\r\n");
    expected.extend_from_slice(b"  echo [text] - prints the text back to the terminal\r\n");
    expected.extend_from_slice(b"  help - prints this help message\r\n");
    expected.extend_from_slice(b"  shutdown - shuts down the system\r\n");
    assert_eq!(uart.sent, expected);
}

#[test]
fn shutdown_is_requested_not_printed() {
    let mut uart = fresh_uart();
    let shutdown = process_command(&mut uart, &line("shutdown"));
    assert!(shutdown);
    assert!(uart.sent.is_empty());
}

#[test]
fn empty_line_does_nothing() {
    let mut uart = fresh_uart();
    assert!(!process_command(&mut uart, &line("")));
    assert!(uart.sent.is_empty());
}

#[test]
fn unknown_commands_earn_a_complaint() {
    let mut uart = fresh_uart();
    let shutdown = process_command(&mut uart, &line("reboot now"));
    assert!(!shutdown);
    assert_eq!(
        uart.sent,
        b"Unknown command \"reboot\". Type 'help' for a list of commands.\r\n".to_vec()
    );
}

#[test]
fn the_line_editor_stores_echoes_and_erases() {
    let mut state = ShellState::new();
    let mut uart = fresh_uart();

    assert!(!shell_input(&mut state, &mut uart, b'h'));
    assert!(!shell_input(&mut state, &mut uart, b'j'));
    // Backspace wipes the stray byte from buffer and terminal.
    assert!(!shell_input(&mut state, &mut uart, 8));
    assert!(!shell_input(&mut state, &mut uart, b'i'));
    // An unprintable byte is ignored outright.
    assert!(!shell_input(&mut state, &mut uart, 1));
    // The carriage return finishes the line.
    assert!(shell_input(&mut state, &mut uart, b'\r'));

    assert_eq!(state.current_command().0, b"hi".to_vec());
    assert_eq!(uart.sent, b"hj\x08 \x08i\r\n".to_vec());

    state.reset();
    assert_eq!(state.buf_pos, 0);
    assert_eq!(state.current_command().0, Vec::<u8>::new());
}

#[test]
fn backspace_on_an_empty_line_is_ignored() {
    let mut state = ShellState::new();
    let mut uart = fresh_uart();
    assert!(!shell_input(&mut state, &mut uart, 127));
    assert_eq!(state.buf_pos, 0);
    assert!(uart.sent.is_empty());
}

#[test]
fn a_full_buffer_drops_further_bytes() {
    let mut state = ShellState::new();
    let mut uart = fresh_uart();
    for _ in 0..130 {
        shell_input(&mut state, &mut uart, b'x');
    }
    assert_eq!(state.buf_pos, 128);
    assert_eq!(uart.sent.len(), 128);
}

#[test]
fn syscall_zero_is_handled_and_others_rejected() {
    let mut uart = fresh_uart();
    assert_eq!(handle_syscall(&mut uart, 0, 1, 2, 3, 4), 0);
    assert_eq!(uart.sent, b"HANDLING SYSCALL 0\n".to_vec());

    let mut uart = fresh_uart();
    assert_eq!(handle_syscall(&mut uart, 42, 0, 0, 0, 0), 0);
    assert_eq!(uart.sent, b"UNKNOWN SYSCALL\n".to_vec());
}

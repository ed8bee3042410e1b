use wakeupllm::netstat::{kill_command, kill_pid, owner_in_text, port_owner_pid, System};

const LISTING: &str = "\r
Active Connections\r
\r
  Proto  Local Address          Foreign Address        State           PID\r
  TCP    0.0.0.0:135            0.0.0.0:0              LISTENING       1080\r
  TCP    127.0.0.1:18003        0.0.0.0:0              LISTENING       77\r
  TCP    127.0.0.1:8003         127.0.0.1:50000        ESTABLISHED     78\r
  TCP    127.0.0.1:8003         0.0.0.0:0              LISTENING       4242\r
  TCP    [::]:8004              [::]:0                 LISTENING       4243\r
  UDP    0.0.0.0:5353           *:*                                    2000\r
";

#[test]
fn listening_process_is_found() {
    assert_eq!(port_owner_pid(LISTING.as_bytes(), 8003), Some(4242));
    assert_eq!(port_owner_pid(LISTING.as_bytes(), 8004), Some(4243));
    assert_eq!(port_owner_pid(LISTING.as_bytes(), 18003), Some(77));
    assert_eq!(port_owner_pid(LISTING.as_bytes(), 135), Some(1080));
}

#[test]
fn other_ports_have_no_process() {
    assert_eq!(port_owner_pid(LISTING.as_bytes(), 3), None);
    assert_eq!(port_owner_pid(LISTING.as_bytes(), 50000), None);
    assert_eq!(port_owner_pid(LISTING.as_bytes(), 5353), None);
    assert_eq!(port_owner_pid(b"", 8003), None);
}

#[test]
fn process_that_is_no_number_ends_the_search() {
    let listing = "TCP a:1 b LISTENING x\nTCP a:2 b LISTENING 5\n";
    assert_eq!(port_owner_pid(listing.as_bytes(), 1), None);
    assert_eq!(port_owner_pid(listing.as_bytes(), 2), None);
    let listing = "TCP a:1 b LISTENING 4294967296\nTCP a:1 b LISTENING 5\n";
    assert_eq!(port_owner_pid(listing.as_bytes(), 1), None);
}

#[test]
fn last_field_is_the_process() {
    let listing: Vec<char> = "TCP a:1 b LISTENING extra 9".chars().collect();
    assert_eq!(owner_in_text(&listing, 1), Some(9));
    let listing: Vec<char> = "TCP a:1 LISTENING 9".chars().collect();
    assert_eq!(owner_in_text(&listing, 1), None);
}

#[test]
fn listing_need_not_be_text() {
    assert_eq!(port_owner_pid(b"\xff\xfe\nTCP a:1 b LISTENING 9\n", 1), Some(9));
}

#[test]
fn processes_are_ended_as_the_system_does_it() {
    let (program, args) = kill_command(System::Windows, 12);
    assert_eq!(program, "taskkill");
    assert_eq!(args, vec!["/PID", "12", "/F"]);
    let (program, args) = kill_command(System::Unix, 12);
    assert_eq!(program, "kill");
    assert_eq!(args, vec!["-9", "12"]);
}

#[test]
fn ending_a_process_may_fail() {
    assert_eq!(kill_pid(System::Unix, 12, Ok(true)), Ok(()));
    assert_eq!(kill_pid(System::Unix, 12, Ok(false)), Err("kill failed for PID 12".to_string()));
    assert_eq!(
        kill_pid(System::Unix, 12, Err("not found".to_string())),
        Err("kill PID 12: not found".to_string())
    );
    assert_eq!(kill_pid(System::Windows, 12, Ok(true)), Ok(()));
    assert_eq!(
        kill_pid(System::Windows, 12, Ok(false)),
        Err("taskkill failed for PID 12".to_string())
    );
    assert_eq!(
        kill_pid(System::Windows, 12, Err("not found".to_string())),
        Err("taskkill PID 12: not found".to_string())
    );
}

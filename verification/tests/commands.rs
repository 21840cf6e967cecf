use pssh::record::MachineConfig;
use pssh::wrapper::{ping, scp, ssh, ScpDirection};

fn format_command(command: &Vec<String>) -> String {
    command.join(" ")
}

#[test]
fn test_commands() {
    let config = MachineConfig {
        ip: Some("localhost".to_string()),
        ..Default::default()
    };

    let command = scp(&config, "/toto", "./tutu", ScpDirection::Push);
    assert_eq!(format_command(&command), "scp -P 22 /toto localhost:./tutu");

    let command = scp(&config, "/toto", "./tutu", ScpDirection::Pull);
    assert_eq!(format_command(&command), "scp -P 22 localhost:/toto ./tutu");

    let command = ssh(&config, None, false);
    assert_eq!(format_command(&command), "ssh -p 22 localhost");

    let command = ssh(&config, Some("toto"), false);
    assert_eq!(format_command(&command), "ssh -p 22 toto@localhost");
}

#[test]
fn commands_use_every_field() {
    let config = MachineConfig {
        ip: Some("example.net".to_string()),
        port: Some(2222),
        user: Some("alice".to_string()),
        pass: Some("secret".to_string()),
        identity: Some("/home/alice/.ssh/key".to_string()),
    };

    let command = scp(&config, "a.txt", "b.txt", ScpDirection::Push);
    assert_eq!(
        format_command(&command),
        "scp -i /home/alice/.ssh/key -P 2222 a.txt alice@example.net:b.txt"
    );

    let command = ssh(&config, None, true);
    assert_eq!(
        format_command(&command),
        "ssh -i /home/alice/.ssh/key -p 2222 alice@example.net tmux attach || tmux new"
    );

    let command = ssh(&config, Some("bob"), false);
    assert_eq!(
        format_command(&command),
        "ssh -i /home/alice/.ssh/key -p 2222 bob@example.net"
    );
}

#[test]
fn ping_command() {
    let command = ping("192.168.1.5");
    assert_eq!(format_command(&command), "ping 192.168.1.5");
}

#[test]
fn info_lines_mask_the_password() {
    let config = MachineConfig {
        ip: Some("example.net".to_string()),
        port: Some(8022),
        user: Some("alice".to_string()),
        pass: Some("hunter2".to_string()),
        identity: None,
    };

    let lines = config.info_lines("box");
    assert_eq!(
        lines,
        vec![
            "Configuration for `box`:".to_string(),
            "  IP: example.net".to_string(),
            "  Port: 8022".to_string(),
            "  User: alice".to_string(),
            "  Pass: *******".to_string(),
        ]
    );
    for line in lines.iter() {
        assert!(!line.contains("hunter2"));
    }
}

use componentize_py::launch::{
    environment, guest_python_path, python_mounts, world_dir, Mount, Variable,
};
use componentize_py::text::to_decimal;

fn mount(host: &str, guest: &str) -> Mount {
    Mount { host: host.to_string(), guest: guest.to_string() }
}

#[test]
fn a_world_has_a_directory_in_snake_case() {
    assert_eq!(world_dir(&"my-World".to_string()), "my_world");
    assert_eq!(world_dir(&"CamelCase".to_string()), "camel_case");
}

#[test]
fn the_directories_of_the_path_are_numbered() {
    assert_eq!(
        python_mounts(&".:/lib/x".to_string(), &"/tmp/gen".to_string(), ':'),
        vec![mount(".", "0"), mount("/lib/x", "1"), mount("/tmp/gen", "2")]
    );
    assert_eq!(
        python_mounts(&"C:\\a;C:\\b".to_string(), &"C:\\g".to_string(), ';'),
        vec![mount("C:\\a", "0"), mount("C:\\b", "1"), mount("C:\\g", "2")]
    );
}

#[test]
fn empty_parts_count() {
    assert_eq!(
        python_mounts(&"".to_string(), &"g".to_string(), ':'),
        vec![mount("", "0"), mount("g", "1")]
    );
    assert_eq!(
        python_mounts(&":\u{e9}:".to_string(), &"g".to_string(), ':'),
        vec![mount("", "0"), mount("\u{e9}", "1"), mount("", "2"), mount("g", "3")]
    );
}

#[test]
fn the_parts_make_the_path() {
    for path in ["", ":", "a", "a:b", "::a::b::"] {
        let mounts = python_mounts(&path.to_string(), &"gen".to_string(), ':');
        let hosts: Vec<&str> = mounts.iter().map(|m| m.host.as_str()).collect();
        assert_eq!(hosts.join(":"), format!("{path}:gen"));
        assert!(hosts.iter().all(|host| !host.contains(':')));
        assert_eq!(hosts.last(), Some(&"gen"));
    }
}

#[test]
fn an_instance_sees_the_numbers() {
    assert_eq!(guest_python_path(1), "/python:/0");
    assert_eq!(guest_python_path(3), "/python:/0:/1:/2");
    assert!(guest_python_path(11).ends_with(":/9:/10"));
}

#[test]
fn the_environment_names_the_application() {
    let variable =
        |name: &str, value: &str| Variable { name: name.to_string(), value: value.to_string() };
    assert_eq!(
        environment(&"app".to_string(), 2),
        vec![
            variable("PYTHONUNBUFFERED", "1"),
            variable("COMPONENTIZE_PY_APP_NAME", "app"),
            variable("PYTHONHOME", "/python"),
            variable("PYTHONPATH", "/python:/0:/1"),
        ]
    );
}

#[test]
fn numbers_are_written_in_decimal() {
    for n in [0, 1, 9, 10, 99, 100, 4294967295, u64::MAX] {
        assert_eq!(to_decimal(n), n.to_string());
    }
}

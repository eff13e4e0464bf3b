use graft::deps::{ldd, parse_ldd, resolve, Deps};
use graft::invocation::{Ended, Failure, Output};

fn output(code: i32, stdout: &str, stderr: &str) -> Output {
    Output {
        ended: Ended::Exited(Some(code)),
        status: format!("exit status: {code}"),
        stdout: stdout.as_bytes().to_vec(),
        stderr: stderr.as_bytes().to_vec(),
    }
}

#[test]
fn parses_libs_and_linker() {
    let out = "\tlinux-vdso.so.1 (0x00007fff)\n\
               \tlibc.so.6 => /usr/lib/libc.so.6 (0x00007f00)\n\
               \t/lib64/ld-linux-x86-64.so.2 (0x00007f11)\n";
    let p = parse_ldd(out);
    assert_eq!(p.linker, Some("/lib64/ld-linux-x86-64.so.2".to_string()));
    assert!(p.libs.contains(&"/usr/lib/libc.so.6".to_string()));
    assert!(p.libs.contains(&"/lib64/ld-linux-x86-64.so.2".to_string()));
    assert!(p.unresolved.is_empty());
}

#[test]
fn reports_not_found() {
    let p = parse_ldd("\tlibfoo.so.1 => not found\n");
    assert_eq!(p.unresolved, vec!["libfoo.so.1".to_string()]);
    assert!(p.libs.is_empty());
}

#[test]
fn dedups_by_soname() {
    let out = "\tlibc.so.6 => /lib/libc.so.6 (0x0)\n\
               \tlibc.so.6 => /usr/lib/libc.so.6 (0x0)\n";
    let p = parse_ldd(out);
    let count = p.libs.iter().filter(|p| p.ends_with("libc.so.6")).count();
    assert_eq!(count, 1);
}

#[test]
fn first_path_of_a_name_and_last_linker_win() {
    let p = parse_ldd("a => /x/liba.so (0)\nb => /y/liba.so (0)\n/l/ld1 (0)\n/l/ld2 (0)\nc =>\n");
    assert_eq!(p.libs, ["/x/liba.so", "/l/ld1", "/l/ld2"]);
    assert_eq!(p.linker, Some("/l/ld2".to_string()));
}

#[test]
fn run_of_ldd_amounts_to_dependencies_or_a_failure() {
    assert_eq!(ldd("/bin/x").args, ["/bin/x"]);
    let (deps, warning) = resolve("/bin/x", &output(1, "\tstatically linked\n", "")).unwrap();
    assert!(deps.is_empty());
    assert_eq!((deps, warning), (Deps { libs: vec![], linker: None }, None));
    assert_eq!(
        resolve("/bin/x", &output(1, "", " not a binary \n")),
        Err(Failure::Message("ldd failed on /bin/x: not a binary".to_string()))
    );
    let gone = Output {
        ended: Ended::NotStarted("no ldd".to_string()),
        status: String::new(),
        stdout: vec![],
        stderr: vec![],
    };
    assert_eq!(
        resolve("/bin/x", &gone),
        Err(Failure::Spawn {
            context: "running ldd on /bin/x".to_string(),
            cause: "no ldd".to_string()
        })
    );
    let (deps, warning) = resolve("/bin/x", &output(0, "a => not found\nb => /b (0)\n", "")).unwrap();
    assert_eq!(deps.libs, ["/b"]);
    assert_eq!(
        warning.unwrap(),
        "[graft] warning: a dependency could not be resolved on the host and won't be grafted: a"
    );
    let (_, warning) = resolve("/bin/x", &output(0, "a => not found\nc => not found\n", "")).unwrap();
    assert_eq!(
        warning.unwrap(),
        "[graft] warning: dependencies could not be resolved on the host and won't be grafted: a, c"
    );
}

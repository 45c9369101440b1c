use kernel::disk_image::{drive, manual_command, parse_arguments, qemu_arguments, UsageError};

fn args(list: &[&str]) -> Vec<String> {
    list.iter().map(|arg| String::from(*arg)).collect()
}

#[test]
fn kernel_path_comes_first() {
    let invocation = parse_arguments(&args(&["disk-image", "target/kernel"])).unwrap();
    assert_eq!(invocation.kernel, "target/kernel");
    assert!(invocation.run);
}

#[test]
fn no_run_may_stand_anywhere() {
    for list in [
        ["disk-image", "kernel", "--no-run"],
        ["--no-run", "kernel", "x"],
        ["disk-image", "--no-run", "x"],
    ] {
        let invocation = parse_arguments(&args(&list)).unwrap();
        assert_eq!(invocation.kernel, list[1]);
        assert!(!invocation.run);
    }
    assert!(parse_arguments(&args(&["a", "b", "--no-runs"])).unwrap().run);
}

#[test]
fn missing_kernel_path_is_an_error() {
    for list in [args(&[]), args(&["disk-image"]), args(&["--no-run"])] {
        assert!(matches!(parse_arguments(&list), Err(UsageError::NoKernelPath)));
    }
    assert_eq!(
        UsageError::NoKernelPath.message(),
        "usage: disk-image <path-to-kernel-binary>"
    );
}

#[test]
fn emulator_arguments() {
    assert_eq!(drive("k.img"), "format=raw,file=k.img");
    assert_eq!(
        qemu_arguments("out/k.img"),
        [
            "-drive",
            "format=raw,file=out/k.img",
            "-serial",
            "stdio",
            "-m",
            "128M",
            "-name",
            "os-dev kernel",
        ]
    );
    assert_eq!(
        manual_command("k.img"),
        "qemu-system-x86_64 -drive format=raw,file=k.img -serial stdio"
    );
}

//! The host tool that wraps the kernel into a disk image and boots it: its command line, and the
//! one of the emulator.

use vstd::prelude::*;
use vstd::string::StringExecFns;

verus! {

/// What the tool is asked to do.
pub struct Invocation {
    /// Path of the kernel binary.
    pub kernel: String,
    /// Boot the image once it is built.
    pub run: bool,
}

/// What is wrong with the command line.
#[derive(Clone, Copy, Debug, PartialEq, Eq, Structural)]
pub enum UsageError {
    /// The path of the kernel binary is missing.
    NoKernelPath,
}

impl UsageError {
    /// What the tool panics with.
    pub open spec fn said(self) -> Seq<char> {
        "usage: disk-image <path-to-kernel-binary>"@
    }

    /// What the tool panics with.
    pub fn message(self) -> (text: &'static str)
        ensures
            text@ == self.said(),
        text@ == "usage: disk-image <path-to-kernel-binary>"@,
    {
        "usage: disk-image <path-to-kernel-binary>"
    }
}

/// Some argument, the name of the program included, asks for the image only.
pub open spec fn image_only(args: Seq<String>) -> bool {
    exists|i: int| 0 <= i < args.len() && (#[trigger] args[i])@ == "--no-run"@
}

/// Reads the command line, the name of the program included: the kernel comes first, and
/// `--no-run` may stand anywhere.
pub fn parse_arguments(args: &Vec<String>) -> (invocation: Result<Invocation, UsageError>)
    ensures
        invocation is Ok <==> args@.len() > 1,
        invocation matches Ok(i) ==> i.kernel@ == args@[1]@ && i.run == !image_only(args@),
        invocation matches Ok(i) ==> (i.run <==> forall|k: int|
            0 <= k < args@.len() ==> (#[trigger] args@[k])@ != "--no-run"@),
{
    if args.len() < 2 {
        return Err(UsageError::NoKernelPath);
    }
    let flag: String = String::from_str("--no-run");
    let mut run: bool = true;
    let mut i: usize = 0;
    while i < args.len()
        invariant
            0 <= i <= args@.len(),
            flag@ == "--no-run"@,
            run <==> forall|k: int| 0 <= k < i ==> (#[trigger] args@[k])@ != "--no-run"@,
        decreases args@.len() - i,
    {
        if args[i] == flag {
            run = false;
        }
        i = i + 1;
    }
    Ok(Invocation { kernel: args[1].clone(), run })
}

/// The drive that the emulator boots from.
pub open spec fn drive_option(image: Seq<char>) -> Seq<char> {
    "format=raw,file="@ + image
}

/// The drive that the emulator boots from.
pub fn drive(image: &str) -> (option: String)
    ensures
        option@ == drive_option(image@),
        option@ == "format=raw,file="@ + image@,
        option@.len() == 16 + image@.len(),
        option@.skip(16) == image@,
{
    proof {
        law_drive_names_the_image(image@);
    }
    String::from_str("format=raw,file=").concat(image)
}

/// The arguments to start the emulator with: the image as its drive, the serial port on standard
/// output, 128 MiB of memory, and a title.
pub fn qemu_arguments(image: &str) -> (args: Vec<String>)
    ensures
        args@.map_values(|arg: String| arg@) == seq![
            "-drive"@,
            drive_option(image@),
            "-serial"@,
            "stdio"@,
            "-m"@,
            "128M"@,
            "-name"@,
            "os-dev kernel"@,
        ],
        args@.len() == 8,
        args@[0]@ == "-drive"@,
        args@[1]@ == "format=raw,file="@ + image@,
        args@[2]@ == "-serial"@,
        args@[3]@ == "stdio"@,
        args@[4]@ == "-m"@,
        args@[5]@ == "128M"@,
        args@[6]@ == "-name"@,
        args@[7]@ == "os-dev kernel"@,
{
    let mut args: Vec<String> = Vec::new();
    args.push(String::from_str("-drive"));
    args.push(drive(image));
    args.push(String::from_str("-serial"));
    args.push(String::from_str("stdio"));
    args.push(String::from_str("-m"));
    args.push(String::from_str("128M"));
    args.push(String::from_str("-name"));
    args.push(String::from_str("os-dev kernel"));
    assert(args@.map_values(|arg: String| arg@) =~= seq![
        "-drive"@,
        drive_option(image@),
        "-serial"@,
        "stdio"@,
        "-m"@,
        "128M"@,
        "-name"@,
        "os-dev kernel"@,
    ]);
    args
}

/// How to boot the image by hand.
pub fn manual_command(image: &str) -> (command: String)
    ensures
        command@ == "qemu-system-x86_64 -drive "@ + drive_option(image@) + " -serial stdio"@,
        command@ == "qemu-system-x86_64 -drive "@ + ("format=raw,file="@ + image@)
            + " -serial stdio"@,
{
    String::from_str("qemu-system-x86_64 -drive ").concat(drive(image).as_str()).concat(
        " -serial stdio",
    )
}

/// The drive names the image as it was given: past the sixteen characters that give the format,
/// the option is the path, and nothing of it is lost or added.
pub proof fn law_drive_names_the_image(image: Seq<char>)
    ensures
        drive_option(image).len() == 16 + image.len(),
        drive_option(image).take(16) == "format=raw,file="@,
        drive_option(image).skip(16) == image,
{
    reveal_strlit("format=raw,file=");
    assert(drive_option(image).take(16) =~= "format=raw,file="@);
    assert(drive_option(image).skip(16) =~= image);
}

/// Different images are different drives.
pub proof fn law_drives_tell_images_apart(image: Seq<char>, other: Seq<char>)
    requires
        drive_option(image) == drive_option(other),
    ensures
        image == other,
{
    law_drive_names_the_image(image);
    law_drive_names_the_image(other);
}

/// The image is not booted exactly if one of the arguments, wherever it stands, is `--no-run`.
pub proof fn law_no_run_may_stand_anywhere(args: Seq<String>, i: int, arg: String)
    requires
        0 <= i <= args.len(),
    ensures
        image_only(args.insert(i, arg)) <==> arg@ == "--no-run"@ || image_only(args),
        !image_only(Seq::empty()),
{
    let longer = args.insert(i, arg);
    assert(longer[i] == arg);
    if image_only(args) {
        let k = choose|k: int| 0 <= k < args.len() && (#[trigger] args[k])@ == "--no-run"@;
        if k < i {
            assert(longer[k] == args[k]);
        } else {
            assert(longer[k + 1] == args[k]);
        }
    }
    if image_only(longer) {
        let k = choose|k: int| 0 <= k < longer.len() && (#[trigger] longer[k])@ == "--no-run"@;
        if k < i {
            assert(longer[k] == args[k]);
        } else if k > i {
            assert(longer[k] == args[k - 1]);
        }
    }
}

} // verus!

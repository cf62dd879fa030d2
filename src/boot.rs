//! Decisions of early boot: which command runs, which partition is the
//! boot partition, and the automount units written for it.
use vstd::prelude::*;
use crate::text::{push_char, push_text, str_eq};

verus! {

/// The boot-time commands.
#[derive(PartialEq, Eq, Structural, Clone, Copy, Debug)]
pub enum BootCommand {
    Rootfs,
    Setup,
    StartRealms,
}

/// One step of early-boot setup.
#[derive(PartialEq, Eq, Structural, Clone, Copy, Debug)]
pub enum SetupStep {
    /// Set up the live or install environment; a failure ends the setup.
    LiveSetup,
    /// Load the keyring; a failure is only reported.
    SetupKeyring,
    MountKernelImage,
    MountExtraImage,
    /// Put a writable overlay over the root filesystem.
    MountOverlay,
    WriteBootAutomount,
}

/// The steps of early-boot setup, in order, for a live or install boot
/// (`live`) or an installed system, with or without a root overlay.
pub fn setup_steps(live: bool, overlay: bool) -> (r: Vec<SetupStep>)
    ensures
        r@ == seq![if live { SetupStep::LiveSetup } else { SetupStep::SetupKeyring }, SetupStep::MountKernelImage,
            SetupStep::MountExtraImage] + (if overlay { seq![SetupStep::MountOverlay] } else { Seq::empty() }) + (if live {
            Seq::empty()
        } else {
            seq![SetupStep::WriteBootAutomount]
        }),
{
    let mut v: Vec<SetupStep> = Vec::new();
    v.push(if live { SetupStep::LiveSetup } else { SetupStep::SetupKeyring });
    v.push(SetupStep::MountKernelImage);
    v.push(SetupStep::MountExtraImage);
    if overlay {
        v.push(SetupStep::MountOverlay);
    }
    if !live {
        v.push(SetupStep::WriteBootAutomount);
    }
    assert(v@ =~= seq![if live { SetupStep::LiveSetup } else { SetupStep::SetupKeyring }, SetupStep::MountKernelImage,
        SetupStep::MountExtraImage] + (if overlay { seq![SetupStep::MountOverlay] } else { Seq::empty() }) + (if live {
        Seq::empty()
    } else {
        seq![SetupStep::WriteBootAutomount]
    }));
    v
}

/// The command that the first argument names, if any.
pub fn boot_command(arg: Option<&str>) -> (r: Option<BootCommand>)
    ensures
        match arg {
            Some(a) => r == (if a@ == "rootfs"@ {
                Some(BootCommand::Rootfs)
            } else if a@ == "setup"@ {
                Some(BootCommand::Setup)
            } else if a@ == "start-realms"@ {
                Some(BootCommand::StartRealms)
            } else {
                None
            }),
            None => r is None,
        },
{
    match arg {
        Some(a) => if str_eq(a, "rootfs") {
            Some(BootCommand::Rootfs)
        } else if str_eq(a, "setup") {
            Some(BootCommand::Setup)
        } else if str_eq(a, "start-realms") {
            Some(BootCommand::StartRealms)
        } else {
            None
        },
        None => None,
    }
}

/// Whether a partition may be the boot partition: where the loader names
/// a device, the partition's identifier must be that device's; where the
/// identifier cannot be read, or the loader names none, every partition
/// matches.
pub fn matches_loader_dev(partition_uuid: Option<&str>, dev: Option<&str>) -> (r: bool)
    ensures
        r == match (dev, partition_uuid) {
            (Some(d), Some(u)) => u@ == d@,
            _ => true,
        },
{
    match dev {
        Some(d) => match partition_uuid {
            Some(u) => str_eq(u, d),
            None => true,
        },
        None => true,
    }
}

/// The boot partition among the candidates, where exactly one matches.
pub fn unique_boot_partition(matches: &Vec<bool>) -> (r: Option<usize>)
    ensures
        match r {
            Some(i) => i < matches@.len() && matches@[i as int] && forall|j: int|
                0 <= j < matches@.len() && j != i ==> !#[trigger] matches@[j],
            None => forall|i: int| 0 <= i < matches@.len() && #[trigger] matches@[i] ==> exists|j: int|
                0 <= j < matches@.len() && j != i && matches@[j],
        },
{
    let mut found: Option<usize> = None;
    let mut i: usize = 0;
    while i < matches.len()
        invariant
            i <= matches@.len(),
            match found {
                Some(f) => f < i && matches@[f as int] && forall|j: int| 0 <= j < i && j != f ==> !#[trigger] matches@[j],
                None => forall|j: int| 0 <= j < i ==> !#[trigger] matches@[j],
            },
        decreases matches@.len() - i,
    {
        if matches[i] {
            match found {
                Some(f) => {
                    assert forall|k: int| 0 <= k < matches@.len() && #[trigger] matches@[k] implies exists|j: int|
                        0 <= j < matches@.len() && j != k && matches@[j] by {
                        if k == f {
                            assert(matches@[i as int]);
                        } else {
                            assert(matches@[f as int]);
                        }
                    }
                    return None;
                },
                None => {
                    found = Some(i);
                },
            }
        }
        i = i + 1;
    }
    found
}

/// The ASCII lower-case form of a character.
pub open spec fn ascii_lower(c: char) -> char {
    if 'A' <= c && c <= 'Z' { ((c as u32) + 32) as char } else { c }
}

/// The text of the loader-device variable: past its four attribute bytes,
/// each non-zero byte as a lower-case character.
pub open spec fn efi_var_text(bytes: Seq<u8>) -> Seq<char>
    decreases bytes.len(),
{
    if bytes.len() <= 4 {
        Seq::empty()
    } else if bytes.last() == 0 {
        efi_var_text(bytes.drop_last())
    } else {
        efi_var_text(bytes.drop_last()).push(ascii_lower(bytes.last() as char))
    }
}

/// Decodes the loader-device variable into the device identifier.
pub fn read_loader_dev_efi_var(bytes: &Vec<u8>) -> (r: String)
    ensures
        r@ == efi_var_text(bytes@),
{
    let mut s = String::new();
    let mut i: usize = 4;
    if bytes.len() <= 4 {
        return s;
    }
    assert(efi_var_text(bytes@.take(4)) =~= Seq::<char>::empty());
    assert(s@ =~= efi_var_text(bytes@.take(4)));
    while i < bytes.len()
        invariant
            4 <= i <= bytes@.len(),
            s@ == efi_var_text(bytes@.take(i as int)),
        decreases bytes@.len() - i,
    {
        let b = bytes[i];
        assert(bytes@.take(i + 1).drop_last() =~= bytes@.take(i as int));
        assert(bytes@.take(i + 1).last() == b);
        if b != 0 {
            let c: char = if b >= 65 && b <= 90 { (b + 32) as char } else { b as char };
            assert(c == ascii_lower(b as char));
            push_char(&mut s, c);
        }
        i = i + 1;
    }
    assert(bytes@.take(i as int) =~= bytes@);
    s
}

/// The mount unit of the boot partition at `dev`.
pub fn boot_mount_unit(dev: &str) -> (r: String)
    ensures
        r@ == "[Unit]\nDescription=Mount /boot partition\n[Mount]\nWhat="@ + dev@ + "\nWhere=/boot\n"@,
{
    let mut s = String::new();
    push_text(&mut s, "[Unit]\nDescription=Mount /boot partition\n[Mount]\nWhat=");
    push_text(&mut s, dev);
    push_text(&mut s, "\nWhere=/boot\n");
    assert(s@ =~= "[Unit]\nDescription=Mount /boot partition\n[Mount]\nWhat="@ + dev@ + "\nWhere=/boot\n"@);
    s
}

/// The automount unit of the boot partition.
pub fn boot_automount_unit() -> (r: &'static str)
    ensures
        r@ == "[Unit]\nDescription=Automount /boot partition\n[Automount]\nWhere=/boot\nTimeoutIdleSec=300\n"@,
{
    "[Unit]\nDescription=Automount /boot partition\n[Automount]\nWhere=/boot\nTimeoutIdleSec=300\n"
}

} // verus!

//! Decisions of resource-image installation: channel names, target
//! directories and file names, which images are stale, and which partition
//! receives a root filesystem image.
use vstd::prelude::*;
use crate::text::{decimal, push_decimal, push_text, str_eq};

verus! {

/// Why an image was refused.
#[derive(PartialEq, Eq, Structural, Clone, Copy, Debug)]
pub enum ImageError {
    /// The channel name holds something other than lower-case ASCII letters.
    InvalidChannel,
    /// The image type is none of `kernel`, `extra` and `rootfs`.
    UnknownImageType,
    /// An installed image has the same digest.
    Duplicate,
    /// No partition can receive the image.
    NoPartition,
}

/// The kinds of resource image.
#[derive(PartialEq, Eq, Structural, Clone, Copy, Debug)]
pub enum ImageKind {
    Kernel,
    Extra,
    Rootfs,
}

/// Whether a channel name is made of lower-case ASCII letters only.
pub open spec fn valid_channel(c: Seq<char>) -> bool {
    forall|i: int| 0 <= i < c.len() ==> 'a' <= #[trigger] c[i] && c[i] <= 'z'
}

/// A number in decimal, padded with zeros to three digits.
pub open spec fn padded3(n: nat) -> Seq<char> {
    let d = decimal(n);
    if d.len() >= 3 { d } else if d.len() == 2 { "0"@ + d } else { "00"@ + d }
}

/// Accepts a channel name made of lower-case ASCII letters only.
pub fn validate_channel_name(channel: &str) -> (r: Result<(), ImageError>)
    ensures
        r is Ok <==> valid_channel(channel@),
        r is Err ==> r == Err::<(), ImageError>(ImageError::InvalidChannel),
{
    let n = channel.unicode_len();
    let mut i: usize = 0;
    while i < n
        invariant
            n == channel@.len(),
            i <= n,
            forall|j: int| 0 <= j < i ==> 'a' <= #[trigger] channel@[j] && channel@[j] <= 'z',
        decreases n - i,
    {
        let c = channel.get_char(i);
        if !('a' <= c && c <= 'z') {
            return Err(ImageError::InvalidChannel);
        }
        i = i + 1;
    }
    Ok(())
}

/// The directory that holds the images of a channel.
pub fn target_directory(channel: &str) -> (r: Result<String, ImageError>)
    ensures
        valid_channel(channel@) ==> (r matches Ok(d) && d@ == "/storage/resources/"@ + channel@),
        !valid_channel(channel@) ==> r == Err::<String, ImageError>(ImageError::InvalidChannel),
{
    match validate_channel_name(channel) {
        Ok(()) => {
            let mut s = String::new();
            push_text(&mut s, "/storage/resources/");
            push_text(&mut s, channel);
            Ok(s)
        },
        Err(e) => Err(e),
    }
}

/// The kind of image an image type names.
pub fn image_kind(image_type: &str) -> (r: Result<ImageKind, ImageError>)
    ensures
        image_type@ == "kernel"@ ==> r == Ok::<ImageKind, ImageError>(ImageKind::Kernel),
        image_type@ == "extra"@ ==> r == Ok::<ImageKind, ImageError>(ImageKind::Extra),
        image_type@ == "rootfs"@ ==> r == Ok::<ImageKind, ImageError>(ImageKind::Rootfs),
        image_type@ != "kernel"@ && image_type@ != "extra"@ && image_type@ != "rootfs"@
            ==> r == Err::<ImageKind, ImageError>(ImageError::UnknownImageType),
{
    proof {
        reveal_strlit("kernel");
        reveal_strlit("extra");
        reveal_strlit("rootfs");
        assert("kernel"@.len() != "extra"@.len());
        assert("rootfs"@.len() != "extra"@.len());
        assert("kernel"@[0] != "rootfs"@[0]);
    }
    if str_eq(image_type, "kernel") {
        Ok(ImageKind::Kernel)
    } else if str_eq(image_type, "extra") {
        Ok(ImageKind::Extra)
    } else if str_eq(image_type, "rootfs") {
        Ok(ImageKind::Rootfs)
    } else {
        Err(ImageError::UnknownImageType)
    }
}

fn push_padded3(s: &mut String, n: u32)
    ensures
        final(s)@ == old(s)@ + padded3(n as nat),
{
    proof {
        reveal_strlit("0");
        reveal_strlit("00");
        lemma_decimal_len(n as nat);
    }
    if n < 10 {
        push_text(s, "00");
    } else if n < 100 {
        push_text(s, "0");
    }
    push_decimal(s, n);
    assert(s@ =~= old(s)@ + padded3(n as nat));
}

proof fn lemma_decimal_len(n: nat)
    ensures
        n < 10 ==> decimal(n).len() == 1,
        10 <= n < 100 ==> decimal(n).len() == 2,
        n >= 100 ==> decimal(n).len() >= 3,
    decreases n,
{
    if n >= 10 {
        lemma_decimal_len(n / 10);
    }
}

/// The file name of an extra image of the given version.
pub fn extra_image_filename(version: u32) -> (r: String)
    ensures
        r@ == "citadel-extra-"@ + padded3(version as nat) + ".img"@,
{
    let mut s = String::new();
    push_text(&mut s, "citadel-extra-");
    push_padded3(&mut s, version);
    push_text(&mut s, ".img");
    assert(s@ =~= "citadel-extra-"@ + padded3(version as nat) + ".img"@);
    s
}

/// The file name of a kernel image for a kernel version, of the given
/// image version.
pub fn kernel_image_filename(kernel_version: &str, version: u32) -> (r: String)
    ensures
        r@ == "citadel-kernel-"@ + kernel_version@ + "-"@ + padded3(version as nat) + ".img"@,
{
    let mut s = String::new();
    push_text(&mut s, "citadel-kernel-");
    push_text(&mut s, kernel_version);
    push_text(&mut s, "-");
    push_padded3(&mut s, version);
    push_text(&mut s, ".img");
    assert(s@ =~= "citadel-kernel-"@ + kernel_version@ + "-"@ + padded3(version as nat) + ".img"@);
    s
}

/// Whether `v` occurs among the views of `vs`.
pub open spec fn listed(vs: Seq<String>, v: Seq<char>) -> bool {
    exists|i: int| 0 <= i < vs.len() && (#[trigger] vs[i])@ == v
}

fn is_listed(vs: &Vec<String>, v: &str) -> (r: bool)
    ensures
        r == listed(vs@, v@),
{
    let mut i: usize = 0;
    while i < vs.len()
        invariant
            i <= vs@.len(),
            forall|j: int| 0 <= j < i ==> (#[trigger] vs@[j])@ != v@,
        decreases vs@.len() - i,
    {
        if str_eq(vs[i].as_str(), v) {
            assert(vs@[i as int]@ == v@);
            return true;
        }
        i = i + 1;
    }
    false
}

/// Whether an installed image is a kernel image that no installed kernel
/// uses: its header is valid, its type is `kernel`, and it names a kernel
/// version that is not among `versions`.
pub fn is_unused_kernel_image(magic_valid: bool, image_type: &str, kernel_version: Option<&str>, versions: &Vec<String>) -> (r: bool)
    ensures
        r == (magic_valid && image_type@ == "kernel"@ && (kernel_version matches Some(v) && !listed(versions@, v@))),
{
    if !magic_valid || !str_eq(image_type, "kernel") {
        return false;
    }
    match kernel_version {
        Some(v) => !is_listed(versions, v),
        None => false,
    }
}

/// Refuses an image whose digest is that of an installed image.
pub fn detect_duplicates(installed: &Vec<String>, shasum: &str) -> (r: Result<(), ImageError>)
    ensures
        r is Err <==> listed(installed@, shasum@),
        r is Err ==> r == Err::<(), ImageError>(ImageError::Duplicate),
{
    if is_listed(installed, shasum) {
        Err(ImageError::Duplicate)
    } else {
        Ok(())
    }
}

/// The partition that receives a root filesystem image, given for each
/// partition whether it is mounted and whether it holds an image: the
/// first one unmounted and empty, or else the first one unmounted.
pub fn choose_install_partition(partitions: &Vec<(bool, bool)>) -> (r: Result<usize, ImageError>)
    ensures
        match r {
            Ok(i) => i < partitions@.len() && !partitions@[i as int].0 && ((!partitions@[i as int].1 && forall|j: int|
                0 <= j < i ==> #[trigger] partitions@[j].0 || partitions@[j].1) || (partitions@[i as int].1 && (forall|j: int|
                0 <= j < partitions@.len() ==> #[trigger] partitions@[j].0 || partitions@[j].1) && forall|j: int|
                0 <= j < i ==> #[trigger] partitions@[j].0)),
            Err(e) => e == ImageError::NoPartition && forall|j: int| 0 <= j < partitions@.len() ==> #[trigger] partitions@[j].0,
        },
{
    let mut i: usize = 0;
    while i < partitions.len()
        invariant
            i <= partitions@.len(),
            forall|j: int| 0 <= j < i ==> #[trigger] partitions@[j].0 || partitions@[j].1,
        decreases partitions@.len() - i,
    {
        if !partitions[i].0 && !partitions[i].1 {
            return Ok(i);
        }
        i = i + 1;
    }
    let mut k: usize = 0;
    while k < partitions.len()
        invariant
            k <= partitions@.len(),
            forall|j: int| 0 <= j < partitions@.len() ==> #[trigger] partitions@[j].0 || partitions@[j].1,
            forall|j: int| 0 <= j < k ==> #[trigger] partitions@[j].0,
        decreases partitions@.len() - k,
    {
        if !partitions[k].0 {
            return Ok(k);
        }
        k = k + 1;
    }
    Err(ImageError::NoPartition)
}

/// The partitions whose prefer-boot flag is cleared before a new root
/// filesystem image is preferred: those that hold an image with the flag
/// set, given for each partition whether it holds an image and whether its
/// flag is set.
pub fn clear_prefer_boot(partitions: &Vec<(bool, bool)>) -> (r: Vec<usize>)
    ensures
        forall|k: int| 0 <= k < r@.len() ==> #[trigger] r@[k] < partitions@.len() && partitions@[r@[k] as int].0 && partitions@[r@[k] as int].1,
        forall|j: int| 0 <= j < partitions@.len() && #[trigger] partitions@[j].0 && partitions@[j].1 ==> r@.contains(j as usize),
        forall|a: int, b: int| 0 <= a < b < r@.len() ==> #[trigger] r@[a] < #[trigger] r@[b],
{
    let mut r: Vec<usize> = Vec::new();
    let mut i: usize = 0;
    while i < partitions.len()
        invariant
            i <= partitions@.len(),
            forall|k: int| 0 <= k < r@.len() ==> #[trigger] r@[k] < i && partitions@[r@[k] as int].0 && partitions@[r@[k] as int].1,
            forall|j: int| 0 <= j < i && #[trigger] partitions@[j].0 && partitions@[j].1 ==> r@.contains(j as usize),
            forall|a: int, b: int| 0 <= a < b < r@.len() ==> #[trigger] r@[a] < #[trigger] r@[b],
        decreases partitions@.len() - i,
    {
        if partitions[i].0 && partitions[i].1 {
            let ghost before = r@;
            r.push(i);
            assert(r@[before.len() as int] == i);
            assert(forall|j: int| 0 <= j < before.len() ==> #[trigger] r@[j] == before[j]);
            assert forall|j: int| 0 <= j < i + 1 && #[trigger] partitions@[j].0 && partitions@[j].1 implies r@.contains(j as usize) by {
                if j < i {
                    let k = choose|k: int| 0 <= k < before.len() && before[k] == j as usize;
                    assert(r@[k] == j as usize);
                }
            }
        }
        i = i + 1;
    }
    r
}

/// Whether an image found in a channel's directory is an older extra
/// image that a new one, of digest `new_shasum`, replaces.
pub fn is_old_extra_image(magic_valid: bool, image_type: &str, shasum: &str, new_shasum: &str) -> (r: bool)
    ensures
        r == (magic_valid && image_type@ == "extra"@ && shasum@ != new_shasum@),
{
    magic_valid && str_eq(image_type, "extra") && !str_eq(shasum, new_shasum)
}

/// How an image is installed.
#[derive(PartialEq, Eq, Structural, Clone, Copy, Debug)]
pub struct InstallFlags {
    /// Do not check the image's digest.
    pub skip_sha: bool,
    /// Do not mark a root filesystem image as preferred for boot.
    pub no_prefer: bool,
    /// Do not list the partitions.
    pub quiet: bool,
}

/// One step of an update run.
#[derive(PartialEq, Eq, Debug)]
pub enum UpdateAction {
    /// Install the image at the path, with the flags given before it.
    Install(String, InstallFlags),
    /// Show which partition a root filesystem image would go to, and stop.
    ChooseRootfs,
}

/// An update step over plain text.
pub enum UpdateStep {
    Install(Seq<char>, InstallFlags),
    ChooseRootfs,
}

pub open spec fn update_step(a: UpdateAction) -> UpdateStep {
    match a {
        UpdateAction::Install(p, f) => UpdateStep::Install(p@, f),
        UpdateAction::ChooseRootfs => UpdateStep::ChooseRootfs,
    }
}

/// The steps that arguments ask for: options set flags for the images
/// named after them; `--verbose` only sets the log level.
pub open spec fn update_plan(args: Seq<Seq<char>>, flags: InstallFlags) -> Seq<UpdateStep>
    decreases args.len(),
{
    if args.len() == 0 {
        Seq::empty()
    } else {
        let a = args[0];
        let rest = args.drop_first();
        if a == "--skip-sha"@ {
            update_plan(rest, InstallFlags { skip_sha: true, ..flags })
        } else if a == "--no-prefer"@ {
            update_plan(rest, InstallFlags { no_prefer: true, ..flags })
        } else if a == "--quiet"@ {
            update_plan(rest, InstallFlags { quiet: true, ..flags })
        } else if a == "--verbose"@ {
            update_plan(rest, flags)
        } else if a == "--choose-rootfs"@ {
            seq![UpdateStep::ChooseRootfs]
        } else {
            seq![UpdateStep::Install(a, flags)] + update_plan(rest, flags)
        }
    }
}

/// The steps of an update run, from its arguments after the program name.
pub fn update_actions(args: &Vec<String>) -> (r: Vec<UpdateAction>)
    ensures
        r@.map_values(|a: UpdateAction| update_step(a)) == update_plan(
            args@.map_values(|s: String| s@),
            InstallFlags { skip_sha: false, no_prefer: false, quiet: false },
        ),
{
    let ghost all = args@.map_values(|s: String| s@);
    let mut flags = InstallFlags { skip_sha: false, no_prefer: false, quiet: false };
    let mut out: Vec<UpdateAction> = Vec::new();
    let mut i: usize = 0;
    assert(all.skip(0) =~= all);
    assert(out@.map_values(|a: UpdateAction| update_step(a)) =~= Seq::<UpdateStep>::empty());
    while i < args.len()
        invariant
            i <= args@.len(),
            all == args@.map_values(|s: String| s@),
            out@.map_values(|a: UpdateAction| update_step(a)) + update_plan(all.skip(i as int), flags) == update_plan(
                all,
                InstallFlags { skip_sha: false, no_prefer: false, quiet: false },
            ),
        decreases args@.len() - i,
    {
        let a = args[i].as_str();
        let ghost rest = all.skip(i as int);
        assert(rest[0] == a@);
        assert(rest.drop_first() =~= all.skip(i + 1));
        let ghost before = out@.map_values(|x: UpdateAction| update_step(x));
        if str_eq(a, "--skip-sha") {
            flags = InstallFlags { skip_sha: true, ..flags };
        } else if str_eq(a, "--no-prefer") {
            flags = InstallFlags { no_prefer: true, ..flags };
        } else if str_eq(a, "--quiet") {
            flags = InstallFlags { quiet: true, ..flags };
        } else if str_eq(a, "--verbose") {
        } else if str_eq(a, "--choose-rootfs") {
            out.push(UpdateAction::ChooseRootfs);
            assert(out@.map_values(|x: UpdateAction| update_step(x)) =~= before.push(UpdateStep::ChooseRootfs));
            assert(update_plan(rest, flags) == seq![UpdateStep::ChooseRootfs]);
            assert(out@.map_values(|x: UpdateAction| update_step(x)) =~= before + update_plan(rest, flags));
            return out;
        } else {
            out.push(UpdateAction::Install(a.to_owned(), flags));
            assert(out@.map_values(|x: UpdateAction| update_step(x)) =~= before.push(UpdateStep::Install(a@, flags)));
            assert(before + update_plan(rest, flags) =~= before.push(UpdateStep::Install(a@, flags)) + update_plan(
                all.skip(i + 1),
                flags,
            ));
        }
        i = i + 1;
    }
    assert(all.skip(i as int) =~= Seq::<Seq<char>>::empty());
    assert(out@.map_values(|a: UpdateAction| update_step(a)) =~= out@.map_values(|a: UpdateAction| update_step(a))
        + update_plan(all.skip(i as int), flags));
    out
}

/// The text a partition listing shows for a flag.
pub fn bool_to_yesno(val: bool) -> (r: &'static str)
    ensures
        r@ == if val { "YES"@ } else { " NO"@ },
{
    if val {
        "YES"
    } else {
        " NO"
    }
}

} // verus!

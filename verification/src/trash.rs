//! A single trash can: where it keeps its files and `.trashinfo` files, and
//! what kind it is.
use crate::bytes::append_bytes;
use crate::datetime::decimal;
use crate::error::Error;
use crate::path::{
    join, lemma_join_relative, relative_to, same_path, spec_is_absolute, spec_join,
    spec_relative_to, spec_starts_with,
};
use vstd::prelude::*;

verus! {

/// The type of a trashcan
#[derive(Debug, Clone, Copy, PartialEq, Eq, Structural, Hash)]
pub enum TrashType {
    /// Located in the users home directory, ususally in `~/.local/share/Trash`
    Home,
    /// A "user created" Trashcan, Named like so: `.Trash-{uid}`
    User,
    /// A trashcan created by an admin at the root of a mounted filesystem, named `.Trash`.
    /// For a directory to quality, it must not be a symlink and must have the sticky bit set.
    Admin,
}

impl TrashType {
    /// The priority of one kind of trash can over another.
    pub open spec fn spec_priority(self) -> int {
        match self {
            TrashType::Home => 3,
            TrashType::Admin => 2,
            TrashType::User => 1,
        }
    }

    /// The priority of one trashcan over another, if multiple ones qualify for a file
    pub fn priority(&self) -> (r: i32)
        ensures
            r == self.spec_priority(),
    {
        match self {
            TrashType::Home => 3,
            TrashType::Admin => 2,
            TrashType::User => 1,
        }
    }

    /// The lower-case name of the kind.
    pub fn name(&self) -> (r: &'static str)
        ensures
            self == TrashType::Home ==> r == "home",
            self == TrashType::User ==> r == "user",
            self == TrashType::Admin ==> r == "admin",
    {
        match self {
            TrashType::Home => "home",
            TrashType::User => "user",
            TrashType::Admin => "admin",
        }
    }
}

/// A single trashcan on the system.
///
/// It is strongly advised to only use paths as `mount_root` that are at the
/// root of a mounted file system: trash cans elsewhere are only used when
/// they are already among the known ones.
#[derive(Debug, PartialEq, Eq, Hash)]
pub struct Trash {
    device: u64,
    mount_root: Vec<u8>,
    based_on: Vec<u8>,
    info_dir: Vec<u8>,
    files_dir: Vec<u8>,
    trash_type: TrashType,
    use_relative_path: bool,
}

/// `info`
pub open spec fn info_name() -> Seq<u8> {
    seq![105u8, 110u8, 102u8, 111u8]
}

/// `files`
pub open spec fn files_name() -> Seq<u8> {
    seq![102u8, 105u8, 108u8, 101u8, 115u8]
}

/// `.Trash`
pub open spec fn admin_trash_name() -> Seq<u8> {
    seq![46u8, 84u8, 114u8, 97u8, 115u8, 104u8]
}

/// `.Trash-` and the user id in decimal.
pub open spec fn user_trash_name(uid: u32) -> Seq<u8> {
    admin_trash_name() + seq![45u8] + decimal(uid as nat)
}

/// The directory of the user trash can of `uid` under `mount_root`.
pub open spec fn spec_user_trash_dir(mount_root: Seq<u8>, uid: u32) -> Seq<u8> {
    spec_join(mount_root, user_trash_name(uid))
}

/// The directory of the admin trash can under `mount_root`.
pub open spec fn spec_admin_trash_dir(mount_root: Seq<u8>) -> Seq<u8> {
    spec_join(mount_root, admin_trash_name())
}

/// `.local/share` under the home directory: where data lives when
/// `XDG_DATA_HOME` is not set.
pub open spec fn default_data_home(home: Seq<u8>) -> Seq<u8> {
    spec_join(
        spec_join(home, seq![46u8, 108u8, 111u8, 99u8, 97u8, 108u8]),
        seq![115u8, 104u8, 97u8, 114u8, 101u8],
    )
}

/// The sticky bit of a file mode.
pub open spec fn sticky_bit_set(mode: u32) -> bool {
    mode & 0o1000u32 != 0
}

/// Appends the decimal digits of `n`.
fn push_decimal(n: u32, out: &mut Vec<u8>)
    ensures
        final(out)@ == old(out)@ + decimal(n as nat),
    decreases n,
{
    if n >= 10 {
        push_decimal(n / 10, out);
    }
    out.push((48 + n % 10) as u8);
    proof {
        if n >= 10 {
            assert(decimal(n as nat) == decimal((n / 10) as nat).push((48 + n % 10) as u8));
        }
    }
    assert(final(out)@ =~= old(out)@ + decimal(n as nat));
}

impl Trash {
    /// The type of this trashcan
    pub fn trash_type(&self) -> (r: TrashType)
        ensures
            r == self.spec_trash_type(),
    {
        self.trash_type
    }

    /// Directory where `.trashinfo` files are stored
    pub fn info_dir(&self) -> (r: &[u8])
        ensures
            r@ == self.spec_info_dir(),
    {
        self.info_dir.as_slice()
    }

    /// Directory where trashes files are stored
    pub fn files_dir(&self) -> (r: &[u8])
        ensures
            r@ == self.spec_files_dir(),
    {
        self.files_dir.as_slice()
    }

    /// Directory to which relative paths from trashed files will be joined to.
    ///
    /// Trashed files in `/mnt/disk1/.Trash-1000` might have a relative
    /// original path, which then gets joined onto `/mnt/disk1`.
    pub fn mount_root(&self) -> (r: &[u8])
        ensures
            r@ == self.spec_mount_root(),
    {
        self.mount_root.as_slice()
    }

    /// Like `mount_root`, but only the *public* part of the path: the part a
    /// file must lie under to be stored in this trash can. For the home
    /// trash in `/home/user/.local/share` it is `/home/user`.
    pub fn based_on(&self) -> (r: &[u8])
        ensures
            r@ == self.spec_based_on(),
    {
        self.based_on.as_slice()
    }

    /// Defines if this trash should use relative paths in it's `.trashinfo` files.
    /// This is the case for trashcans on, for example, removeable devices in order
    /// to not have to depend on the device being mounted at the same location every time.
    pub fn use_relative_path(&self) -> (r: bool)
        ensures
            r == self.spec_use_relative_path(),
    {
        self.use_relative_path
    }

    /// The device id of the filesystem this trash resides on
    pub fn device(&self) -> (r: u64)
        ensures
            r == self.spec_device(),
    {
        self.device
    }

    /// The directory of the user trash can (`.Trash-{uid}`) under `mount_root`.
    pub fn user_trash_dir(mount_root: &[u8], uid: u32) -> (r: Vec<u8>)
        ensures
            r@ == spec_user_trash_dir(mount_root@, uid),
    {
        let mut name: Vec<u8> = vec![46u8, 84u8, 114u8, 97u8, 115u8, 104u8, 45u8];
        push_decimal(uid, &mut name);
        assert(name@ =~= user_trash_name(uid));
        join(mount_root, name.as_slice())
    }

    /// The directory of the admin trash can (`.Trash`) under `mount_root`.
    pub fn admin_trash_dir(mount_root: &[u8]) -> (r: Vec<u8>)
        ensures
            r@ == spec_admin_trash_dir(mount_root@),
    {
        let name: Vec<u8> = vec![46u8, 84u8, 114u8, 97u8, 115u8, 104u8];
        join(mount_root, name.as_slice())
    }

    /// The user-created trash can (`.Trash-{uid}`) under `mount_root`, whose
    /// directory lies on `device`. It keeps relative paths.
    pub fn user_trash(mount_root: &[u8], uid: u32, device: u64) -> (r: Trash)
        ensures
            r.spec_device() == device,
            r.spec_mount_root() == mount_root@,
            r.spec_based_on() == mount_root@,
            r.spec_info_dir() == spec_join(spec_user_trash_dir(mount_root@, uid), info_name()),
            r.spec_files_dir() == spec_join(spec_user_trash_dir(mount_root@, uid), files_name()),
            r.spec_trash_type() == TrashType::User,
            r.spec_use_relative_path(),
    {
        let dir = Trash::user_trash_dir(mount_root, uid);
        let info: Vec<u8> = vec![105u8, 110u8, 102u8, 111u8];
        let files: Vec<u8> = vec![102u8, 105u8, 108u8, 101u8, 115u8];
        let mut root: Vec<u8> = Vec::new();
        append_bytes(&mut root, mount_root);
        let mut based: Vec<u8> = Vec::new();
        append_bytes(&mut based, mount_root);
        Trash {
            device,
            mount_root: root,
            based_on: based,
            info_dir: join(dir.as_slice(), info.as_slice()),
            files_dir: join(dir.as_slice(), files.as_slice()),
            trash_type: TrashType::User,
            use_relative_path: true,
        }
    }

    /// Whether the directory of an admin trash can qualifies: it must have
    /// the sticky bit set and must not be a symbolic link.
    pub fn check_admin_trash(trash_dir: &[u8], mode: u32, is_symlink: bool) -> (r: Result<
        (),
        Error,
    >)
        ensures
            r is Ok <==> sticky_bit_set(mode) && !is_symlink,
            !sticky_bit_set(mode) ==> (r matches Err(Error::NotSticky(p)) && p@ == trash_dir@),
            sticky_bit_set(mode) && is_symlink ==> (r matches Err(Error::IsSymlink(p)) && p@
                == trash_dir@),
    {
        let mut p: Vec<u8> = Vec::new();
        append_bytes(&mut p, trash_dir);
        if mode & 0o1000u32 == 0 {
            return Err(Error::NotSticky(p));
        }
        if is_symlink {
            return Err(Error::IsSymlink(p));
        }
        Ok(())
    }

    /// The admin trash can (`.Trash`) under `mount_root`, whose directory
    /// lies on `device`; this user's part of it is the sub-directory named
    /// after `uid`. It keeps relative paths.
    pub fn admin_trash(mount_root: &[u8], uid: u32, device: u64) -> (r: Trash)
        ensures
            r.spec_device() == device,
            r.spec_mount_root() == mount_root@,
            r.spec_based_on() == mount_root@,
            r.spec_info_dir() == spec_join(
                spec_join(spec_admin_trash_dir(mount_root@), decimal(uid as nat)),
                info_name(),
            ),
            r.spec_files_dir() == spec_join(
                spec_join(spec_admin_trash_dir(mount_root@), decimal(uid as nat)),
                files_name(),
            ),
            r.spec_trash_type() == TrashType::Admin,
            r.spec_use_relative_path(),
    {
        let dir = Trash::admin_trash_dir(mount_root);
        let mut uid_name: Vec<u8> = Vec::new();
        push_decimal(uid, &mut uid_name);
        assert(uid_name@ =~= decimal(uid as nat));
        let own = join(dir.as_slice(), uid_name.as_slice());
        let info: Vec<u8> = vec![105u8, 110u8, 102u8, 111u8];
        let files: Vec<u8> = vec![102u8, 105u8, 108u8, 101u8, 115u8];
        let mut root: Vec<u8> = Vec::new();
        append_bytes(&mut root, mount_root);
        let mut based: Vec<u8> = Vec::new();
        append_bytes(&mut based, mount_root);
        Trash {
            device,
            mount_root: root,
            based_on: based,
            info_dir: join(own.as_slice(), info.as_slice()),
            files_dir: join(own.as_slice(), files.as_slice()),
            trash_type: TrashType::Admin,
            use_relative_path: true,
        }
    }

    /// The directory user data lives in: `XDG_DATA_HOME` where it is set,
    /// else `.local/share` under the home directory.
    pub fn data_home(home: &[u8], xdg_data_home: Option<&[u8]>) -> (r: Vec<u8>)
        ensures
            match xdg_data_home {
                Some(x) => r@ == x@,
                None => r@ == default_data_home(home@),
            },
    {
        match xdg_data_home {
            Some(x) => {
                let mut d: Vec<u8> = Vec::new();
                append_bytes(&mut d, x);
                d
            },
            None => {
                let local: Vec<u8> = vec![46u8, 108u8, 111u8, 99u8, 97u8, 108u8];
                let share: Vec<u8> = vec![115u8, 104u8, 97u8, 114u8, 101u8];
                let l = join(home, local.as_slice());
                join(l.as_slice(), share.as_slice())
            },
        }
    }

    /// The home trash can (`Trash` in the data directory), where the data
    /// directory lies on `device`. A file qualifies for it when it lies
    /// under the home directory; it keeps absolute paths.
    pub fn home_trash(home: &[u8], data_home: &[u8], device: u64) -> (r: Trash)
        ensures
            r.spec_device() == device,
            r.spec_mount_root() == data_home@,
            r.spec_based_on() == home@,
            r.spec_info_dir() == spec_join(spec_join(data_home@, home_trash_name()), info_name()),
            r.spec_files_dir() == spec_join(spec_join(data_home@, home_trash_name()), files_name()),
            r.spec_trash_type() == TrashType::Home,
            !r.spec_use_relative_path(),
    {
        let name: Vec<u8> = vec![84u8, 114u8, 97u8, 115u8, 104u8];
        let dir = join(data_home, name.as_slice());
        let info: Vec<u8> = vec![105u8, 110u8, 102u8, 111u8];
        let files: Vec<u8> = vec![102u8, 105u8, 108u8, 101u8, 115u8];
        let mut root: Vec<u8> = Vec::new();
        append_bytes(&mut root, data_home);
        let mut based: Vec<u8> = Vec::new();
        append_bytes(&mut based, home);
        Trash {
            device,
            mount_root: root,
            based_on: based,
            info_dir: join(dir.as_slice(), info.as_slice()),
            files_dir: join(dir.as_slice(), files.as_slice()),
            trash_type: TrashType::Home,
            use_relative_path: false,
        }
    }

    /// The type of this trash can.
    pub closed spec fn spec_trash_type(&self) -> TrashType {
        self.trash_type
    }

    /// The path written into the `.trashinfo` file for the file at the
    /// absolute path `abs_path`: relative to the mount root for a trash can
    /// that keeps relative paths and holds the file under its mount root,
    /// else the absolute path.
    pub open spec fn spec_stored_path(&self, abs_path: Seq<u8>) -> Seq<u8> {
        if self.spec_use_relative_path() && spec_starts_with(abs_path, self.spec_mount_root()) {
            spec_relative_to(abs_path, self.spec_mount_root())
        } else {
            abs_path
        }
    }

    /// The path to write into the `.trashinfo` file for the file at the
    /// absolute path `abs_path`.
    pub fn stored_path(&self, abs_path: &[u8]) -> (r: Vec<u8>)
        ensures
            r@ == self.spec_stored_path(abs_path@),
    {
        if self.use_relative_path {
            match relative_to(abs_path, self.mount_root.as_slice()) {
                Some(q) => {
                    return q;
                },
                None => {},
            }
        }
        let mut out: Vec<u8> = Vec::new();
        append_bytes(&mut out, abs_path);
        out
    }

    /// The priority of this trash can.
    pub open spec fn spec_priority(&self) -> int {
        self.spec_trash_type().spec_priority()
    }

    /// The device of this trash can.
    pub closed spec fn spec_device(&self) -> u64 {
        self.device
    }

    /// The public part of the path of this trash can.
    pub closed spec fn spec_based_on(&self) -> Seq<u8> {
        self.based_on@
    }

    /// The directory relative original paths are joined to.
    pub closed spec fn spec_mount_root(&self) -> Seq<u8> {
        self.mount_root@
    }

    /// The directory of the trashed files.
    pub closed spec fn spec_files_dir(&self) -> Seq<u8> {
        self.files_dir@
    }

    /// The directory of the `.trashinfo` files.
    pub closed spec fn spec_info_dir(&self) -> Seq<u8> {
        self.info_dir@
    }

    /// Whether this trash can keeps relative paths.
    pub closed spec fn spec_use_relative_path(&self) -> bool {
        self.use_relative_path
    }
}

/// The name a trashed file gets in the trash can on the `k`-th try: its own
/// name first, then the name with `_` and the number appended.
pub open spec fn spec_entry_name(base: Seq<u8>, k: u32) -> Seq<u8> {
    if k == 0 {
        base
    } else {
        base + seq![95u8] + decimal(k as nat)
    }
}

/// The name a trashed file gets in the trash can on the `k`-th try.
pub fn entry_name(base: &[u8], k: u32) -> (r: Vec<u8>)
    ensures
        r@ == spec_entry_name(base@, k),
{
    let mut out: Vec<u8> = Vec::new();
    append_bytes(&mut out, base);
    if k > 0 {
        out.push(95u8);
        push_decimal(k, &mut out);
    }
    out
}

/// `Trash`
pub open spec fn home_trash_name() -> Seq<u8> {
    seq![84u8, 114u8, 97u8, 115u8, 104u8]
}

/// Where a trashed file goes back to: its stored original path, taken
/// relative to the trash can's mount root where it is relative.
pub open spec fn original_location(mount_root: Seq<u8>, stored: Seq<u8>) -> Seq<u8> {
    if spec_is_absolute(stored) {
        stored
    } else {
        spec_join(mount_root, stored)
    }
}

/// A file trashed from an absolute path is restored to that same path: the
/// path stored for it, taken back against the trash can's mount root, is
/// the path it came from.
pub proof fn lemma_restored_where_trashed(t: Trash, abs_path: Seq<u8>)
    requires
        spec_is_absolute(t.spec_mount_root()),
        spec_is_absolute(abs_path),
    ensures
        same_path(original_location(t.spec_mount_root(), t.spec_stored_path(abs_path)), abs_path),
{
    if t.spec_use_relative_path() && spec_starts_with(abs_path, t.spec_mount_root()) {
        lemma_join_relative(t.spec_mount_root(), abs_path);
    }
}

} // verus!

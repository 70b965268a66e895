//! WebAssembly skill packages stored under `/apps`.
use vstd::prelude::*;
use vstd::string::StringSliceAdditionalSpecFns;
use crate::fs::ramdisk::{RamFs, ls_spec, open_error, write_spec, NodeView};
use crate::fs::vfs::{FileSystem, OpenFlags, DirEntry, FsError, FileHandle};
use crate::fs::path::{norm_fold, normalize_spec};
use crate::text::{ends_with_spec, trim_spec, trim_start_spec, trim_end_spec, chars_of, ends, trim_str, push_str, push_chars, to_string, slice_range};

verus! {

#[derive(Clone, Debug)]
pub struct PackageInfo {
    pub name: String,
    pub path: String,
    pub size_bytes: usize,
    pub category: &'static str,
    pub status: &'static str,
}

pub struct PackageManager;

/// Category shown for a package file name.
pub open spec fn category_of(name: Seq<char>) -> &'static str {
    if name == "quantum_skill.wasm"@ {
        "Quantum Computing"
    } else if name == "neural_nlp.wasm"@ {
        "AI / Neural NLP"
    } else if name == "crypto_vault.wasm"@ {
        "Cryptography"
    } else if name == "3d_renderer.wasm"@ {
        "Graphics / WebAssembly 3D"
    } else {
        "General Utility"
    }
}

/// Name, path, size, category and status of a package record.
pub type PackageView = (Seq<char>, Seq<char>, usize, &'static str, &'static str);

pub open spec fn package_view(p: PackageInfo) -> PackageView {
    (p.name@, p.path@, p.size_bytes, p.category, p.status)
}

/// The package records for the `.wasm` entries of a directory listing, in listing order.
pub open spec fn packages_of(es: Seq<DirEntry>) -> Seq<PackageView>
    decreases es.len(),
{
    if es.len() == 0 {
        Seq::empty()
    } else {
        let rest = packages_of(es.drop_last());
        let e = es.last();
        if ends_with_spec(e.name@, ".wasm"@) {
            rest.push(
                (e.name@, "/apps/"@ + e.name@, e.size, category_of(e.name@), "Installed (Sandboxed)"),
            )
        } else {
            rest
        }
    }
}

/// `s` with every trailing repetition of `suf` removed, as `trim_end_matches`.
pub open spec fn strip_suffixes(s: Seq<char>, suf: Seq<char>) -> Seq<char>
    decreases s.len(),
{
    if suf.len() > 0 && s.len() >= suf.len() && ends_with_spec(s, suf) {
        strip_suffixes(s.subrange(0, s.len() - suf.len()), suf)
    } else {
        s
    }
}

/// Package name as the user gave it: trimmed, without trailing `.wasm`.
pub open spec fn clean_name(name: Seq<char>) -> Seq<char> {
    strip_suffixes(trim_spec(name), ".wasm"@)
}

/// Path of the package file for a cleaned name.
pub open spec fn package_path(clean: Seq<char>) -> Seq<char> {
    "/apps/"@ + clean + ".wasm"@
}

/// The bytes of the minimal WebAssembly module that `install` writes.
pub open spec fn sample_wasm() -> Seq<u8> {
    seq![
        0x00u8, 0x61, 0x73, 0x6D, 0x01, 0x00, 0x00, 0x00, 0x01, 0x04, 0x01, 0x60, 0x00, 0x00,
        0x03, 0x02,
    ]
}

fn category_for(name: &[char]) -> (r: &'static str)
    ensures
        r == category_of(name@),
{
    if crate::text::equals(name, "quantum_skill.wasm") {
        "Quantum Computing"
    } else if crate::text::equals(name, "neural_nlp.wasm") {
        "AI / Neural NLP"
    } else if crate::text::equals(name, "crypto_vault.wasm") {
        "Cryptography"
    } else if crate::text::equals(name, "3d_renderer.wasm") {
        "Graphics / WebAssembly 3D"
    } else {
        "General Utility"
    }
}

fn strip_wasm_suffixes(s: &[char]) -> (r: Vec<char>)
    ensures
        r@ == strip_suffixes(s@, ".wasm"@),
{
    let suf = chars_of(".wasm");
    proof {
        reveal_strlit(".wasm");
    }
    let mut n = s.len();
    proof {
        assert(s@.subrange(0, n as int) =~= s@);
    }
    while n >= suf.len() && crate::text::occurs_at_exec(s, suf.as_slice(), n - suf.len())
        invariant
            suf@ == ".wasm"@,
            suf@.len() == 5,
            n <= s@.len(),
            strip_suffixes(s@, ".wasm"@) == strip_suffixes(s@.subrange(0, n as int), ".wasm"@),
        decreases n,
    {
        let ghost t = s@.subrange(0, n as int);
        proof {
            assert(t.subrange(n - 5, n as int) =~= s@.subrange(n - 5, n as int));
            assert(ends_with_spec(t, ".wasm"@));
            assert(t.subrange(0, t.len() - 5) =~= s@.subrange(0, n - 5));
        }
        n = n - suf.len();
    }
    proof {
        let t = s@.subrange(0, n as int);
        if t.len() >= 5 && ends_with_spec(t, ".wasm"@) {
            assert(t.subrange(n - 5, n as int) =~= s@.subrange(n - 5, n as int));
        }
    }
    slice_range(s, 0, n)
}

fn sample_bytes() -> (r: Vec<u8>)
    ensures
        r@ == sample_wasm(),
{
    let mut v: Vec<u8> = Vec::new();
    v.push(0x00);
    v.push(0x61);
    v.push(0x73);
    v.push(0x6D);
    v.push(0x01);
    v.push(0x00);
    v.push(0x00);
    v.push(0x00);
    v.push(0x01);
    v.push(0x04);
    v.push(0x01);
    v.push(0x60);
    v.push(0x00);
    v.push(0x00);
    v.push(0x03);
    v.push(0x02);
    assert(v@ =~= sample_wasm());
    v
}

impl PackageManager {
    /// The packages installed in `/apps`: its `.wasm` entries, in name order.
    pub fn list(fs: &RamFs) -> (r: Vec<PackageInfo>)
        requires
            fs.wf(),
        ensures
            ({
                let p = normalize_spec("/apps"@);
                if !fs.files_view().contains_key(p) {
                    r@.len() == 0
                } else {
                    exists|es: Seq<DirEntry>|
                        ls_spec(fs.files_view(), p, es) && r@.map_values(|x: PackageInfo| package_view(x))
                            == packages_of(es)
                }
            }),
    {
        let mut packages: Vec<PackageInfo> = Vec::new();
        match fs.ls("/apps") {
            Ok(entries) => {
                let mut i: usize = 0;
                while i < entries.len()
                    invariant
                        i <= entries@.len(),
                        packages@.map_values(|x: PackageInfo| package_view(x)) == packages_of(
                            entries@.subrange(0, i as int),
                        ),
                    decreases entries@.len() - i,
                {
                    let name = chars_of(entries[i].name.as_str());
                    proof {
                        assert(entries@.subrange(0, i as int + 1).drop_last() =~= entries@.subrange(0, i as int));
                    }
                    if ends(name.as_slice(), ".wasm") {
                        let mut path: Vec<char> = Vec::new();
                        push_str(&mut path, "/apps/");
                        push_chars(&mut path, name.as_slice());
                        let info = PackageInfo {
                            name: to_string(name.as_slice()),
                            path: to_string(path.as_slice()),
                            size_bytes: entries[i].size,
                            category: category_for(name.as_slice()),
                            status: "Installed (Sandboxed)",
                        };
                        let ghost before = packages@;
                        packages.push(info);
                        proof {
                            assert(packages@.map_values(|x: PackageInfo| package_view(x)) =~= before.map_values(
                                |x: PackageInfo| package_view(x),
                            ).push(package_view(info)));
                        }
                    }
                    i += 1;
                }
                proof {
                    assert(entries@.subrange(0, i as int) =~= entries@);
                }
            },
            Err(_) => {},
        }
        packages
    }

    /// Installs the package `name` as `/apps/<name>.wasm`, holding a minimal module.
    pub fn install(name: &str, fs: &mut RamFs) -> (r: Result<String, &'static str>)
        requires
            old(fs).wf(),
            old(fs).next_handle_view() < u64::MAX,
        ensures
            final(fs).wf(),
            ({
                let c = clean_name(name@);
                let p = normalize_spec(package_path(c));
                let fv = old(fs).files_view();
                match open_error(fv, p, OpenFlags::Create) {
                    Some(_) => r == Err::<String, &'static str>("Failed to create package file on VFS")
                        && final(fs).files_view() == fv,
                    None => {
                        let before = if fv.contains_key(p) { fv[p].0 } else { Seq::empty() };
                        &&& r matches Ok(msg) && msg@ == "Package '"@ + c
                            + "' successfully installed to "@ + package_path(c) + " (ATA Synced)"@
                        &&& final(fs).files_view() == fv.insert(p, (write_spec(before, 0, sample_wasm()), false))
                    },
                }
            }),
            final(fs).open_view() == old(fs).open_view(),
    {
        let t = trim_str(name);
        let clean = strip_wasm_suffixes(t.as_slice());
        let mut path: Vec<char> = Vec::new();
        push_str(&mut path, "/apps/");
        push_chars(&mut path, clean.as_slice());
        push_str(&mut path, ".wasm");
        let path_s = to_string(path.as_slice());
        let sample = sample_bytes();
        proof {
            old(fs).lemma_next_fresh();
        }
        match fs.open(path_s.as_str(), OpenFlags::Create) {
            Ok(handle) => {
                let _ = fs.write(handle, sample.as_slice());
                let _ = fs.close(handle);
                proof {
                    let ov = old(fs).open_view();
                    let h = old(fs).next_handle_view();
                    assert(ov.insert(h, (normalize_spec(package_path(clean@)), 0nat, OpenFlags::Create)).insert(
                        h,
                        (normalize_spec(package_path(clean@)), 16nat, OpenFlags::Create),
                    ).remove(h) =~= ov);
                    let fv = old(fs).files_view();
                    let p = normalize_spec(package_path(clean@));
                    assert(fv.insert(p, (Seq::<u8>::empty(), false)).insert(
                        p,
                        (write_spec(Seq::empty(), 0, sample_wasm()), false),
                    ) =~= fv.insert(p, (write_spec(Seq::empty(), 0, sample_wasm()), false)));
                    if fv.contains_key(p) {
                        assert(fv[p].1 == false);
                        assert(fv.insert(p, (write_spec(fv[p].0, 0, sample_wasm()), fv[p].1)) =~= fv.insert(
                            p,
                            (write_spec(fv[p].0, 0, sample_wasm()), false),
                        ));
                    }
                }
                let mut msg: Vec<char> = Vec::new();
                push_str(&mut msg, "Package '");
                push_chars(&mut msg, clean.as_slice());
                push_str(&mut msg, "' successfully installed to ");
                push_chars(&mut msg, path.as_slice());
                push_str(&mut msg, " (ATA Synced)");
                Ok(to_string(msg.as_slice()))
            },
            Err(_) => Err("Failed to create package file on VFS"),
        }
    }

    /// Removes the package `name`, that is `/apps/<name>.wasm`.
    pub fn remove(name: &str, fs: &mut RamFs) -> (r: Result<String, &'static str>)
        requires
            old(fs).wf(),
        ensures
            final(fs).wf(),
            final(fs).open_view() == old(fs).open_view(),
            ({
                let c = clean_name(name@);
                let p = normalize_spec(package_path(c));
                let fv = old(fs).files_view();
                let removable = fv.contains_key(p) && !(fv[p].1 && crate::fs::ramdisk::has_children(fv, p));
                if removable {
                    &&& r matches Ok(msg) && msg@ == "Package '"@ + c
                        + "' successfully removed and disk synced"@
                    &&& final(fs).files_view() == fv.remove(p)
                } else {
                    r == Err::<String, &'static str>("Package not found in /apps")
                        && final(fs).files_view() == fv
                }
            }),
    {
        let t = trim_str(name);
        let clean = strip_wasm_suffixes(t.as_slice());
        let mut path: Vec<char> = Vec::new();
        push_str(&mut path, "/apps/");
        push_chars(&mut path, clean.as_slice());
        push_str(&mut path, ".wasm");
        let path_s = to_string(path.as_slice());
        proof {
            lemma_package_path_not_root(name@);
        }
        match fs.rm(path_s.as_str()) {
            Ok(_) => {
                let mut msg: Vec<char> = Vec::new();
                push_str(&mut msg, "Package '");
                push_chars(&mut msg, clean.as_slice());
                push_str(&mut msg, "' successfully removed and disk synced");
                Ok(to_string(msg.as_slice()))
            },
            Err(_) => Err("Package not found in /apps"),
        }
    }
}

/// A package's normalised path ends in the `m` of `.wasm`, so it is never the root.
pub proof fn lemma_package_path_not_root(name: Seq<char>)
    ensures
        normalize_spec(package_path(clean_name(name))).len() > 0,
        normalize_spec(package_path(clean_name(name))).last() == 'm',
        normalize_spec(package_path(clean_name(name))) != seq!['/'],
{
    let c = clean_name(name);
    let s = package_path(c);
    let p = normalize_spec(s);
    reveal_strlit("/apps/");
    reveal_strlit(".wasm");
    assert(s[0] == '/');
    assert(s.last() == 'm');
    assert(trim_start_spec(s) == s);
    assert(trim_end_spec(s) == s);
    assert(p == norm_fold(s).0);
    assert(p.last() == 'm');
}

/// Removing a package right after installing it, when its file did not exist before, gives
/// the file system back as it was: the install leaves a removable file (not the root, not a
/// directory), removing that file leaves exactly the files there were before, and a second
/// removal finds no package.
pub proof fn lemma_remove_undoes_install(fv: Map<Seq<char>, NodeView>, name: Seq<char>)
    requires
        open_error(fv, normalize_spec(package_path(clean_name(name))), OpenFlags::Create) is None,
        !fv.contains_key(normalize_spec(package_path(clean_name(name)))),
    ensures
        ({
            let p = normalize_spec(package_path(clean_name(name)));
            let fv1 = fv.insert(p, (write_spec(Seq::empty(), 0, sample_wasm()), false));
            &&& p != seq!['/'] && fv1.contains_key(p)
            &&& !(fv1[p].1 && crate::fs::ramdisk::has_children(fv1, p))
            &&& fv1.remove(p) == fv
            &&& !fv1.remove(p).contains_key(p)
        }),
{
    let p = normalize_spec(package_path(clean_name(name)));
    lemma_package_path_not_root(name);
    let fv1 = fv.insert(p, (write_spec(Seq::empty(), 0, sample_wasm()), false));
    assert(fv1.remove(p) =~= fv);
}

} // verus!

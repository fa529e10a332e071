//! The two catalog decoders.
//!
//! A catalog file is an 8-byte header (`version`, `universe`) followed by a
//! stream of records, each a fixed-width prefix plus one node, ended by a
//! sentinel id: `0` for application catalogs, `0xFFFFFFFF` for package
//! catalogs. A decode either yields the whole catalog or exactly the first
//! error; no partially built catalog is ever returned.

use crate::error::DecodeError;
use crate::format::lemma_spec_read_node_advances;
use crate::format::lemma_spec_read_node_stable;
use crate::format::lemma_spec_read_node_truncated;
use crate::format::spec_read_node;
use crate::node::binary_loads;
use crate::reader::le32_at;
use crate::reader::le64_at;
use crate::reader::read_bytes;
use crate::reader::read_u32_le;
use crate::reader::read_u64_le;
use crate::value::KeyValue;
use crate::value::Value;
use crate::value::ValueView;
use crate::value::spec_lookup;
use crate::value::path_view;
use std::collections::HashMap;
use vstd::prelude::*;

verus! {

broadcast use vstd::std_specs::hash::group_hash_axioms;

/// The id closing an application record stream; never a record id.
pub const APP_SENTINEL: u32 = 0;

/// The id closing a package record stream; never a record id.
pub const PACKAGE_SENTINEL: u32 = 0xFFFF_FFFF;

/// Specification-level form of an application record.
pub ghost struct AppView {
    pub size: u32,
    pub state: u32,
    pub last_update: u32,
    pub access_token: u64,
    pub checksum: Seq<u8>,
    pub change_number: u32,
    pub key_values: Map<Seq<char>, ValueView>,
}

/// Specification-level form of an application catalog.
pub ghost struct AppInfoView {
    pub version: u32,
    pub universe: u32,
    pub apps: Map<u32, AppView>,
}

/// Specification-level form of a package record.
pub ghost struct PackageView {
    pub checksum: Seq<u8>,
    pub change_number: u32,
    pub pics: u64,
    pub key_values: Map<Seq<char>, ValueView>,
}

/// Specification-level form of a package catalog.
pub ghost struct PackageInfoView {
    pub version: u32,
    pub universe: u32,
    pub packages: Map<u32, PackageView>,
}

/// One application record: fixed-width prefix fields, a 20-byte checksum
/// kept verbatim, and the record's key/value tree.
#[derive(Debug, PartialEq)]
pub struct App {
    pub size: u32,
    pub state: u32,
    pub last_update: u32,
    pub access_token: u64,
    pub checksum: Vec<u8>,
    pub change_number: u32,
    pub key_values: KeyValue,
}

/// A decoded application catalog.
#[derive(Debug, PartialEq)]
pub struct AppInfo {
    pub version: u32,
    pub universe: u32,
    pub apps: HashMap<u32, App>,
}

/// One package record: a 20-byte checksum kept verbatim, a change number,
/// an 8-byte field of unknown meaning preserved uninterpreted, and the
/// record's key/value tree.
#[derive(Debug, PartialEq)]
pub struct Package {
    pub checksum: Vec<u8>,
    pub change_number: u32,
    pub pics: u64,
    pub key_values: KeyValue,
}

/// A decoded package catalog.
#[derive(Debug, PartialEq)]
pub struct PackageInfo {
    pub version: u32,
    pub universe: u32,
    pub packages: HashMap<u32, Package>,
}

impl View for App {
    type V = AppView;

    open spec fn view(&self) -> AppView {
        AppView {
            size: self.size,
            state: self.state,
            last_update: self.last_update,
            access_token: self.access_token,
            checksum: self.checksum@,
            change_number: self.change_number,
            key_values: self.key_values@,
        }
    }
}

impl View for AppInfo {
    type V = AppInfoView;

    open spec fn view(&self) -> AppInfoView {
        AppInfoView {
            version: self.version,
            universe: self.universe,
            apps: self.apps@.map_values(|a: App| a@),
        }
    }
}

impl View for Package {
    type V = PackageView;

    open spec fn view(&self) -> PackageView {
        PackageView {
            checksum: self.checksum@,
            change_number: self.change_number,
            pics: self.pics,
            key_values: self.key_values@,
        }
    }
}

impl View for PackageInfo {
    type V = PackageInfoView;

    open spec fn view(&self) -> PackageInfoView {
        PackageInfoView {
            version: self.version,
            universe: self.universe,
            packages: self.packages@.map_values(|p: Package| p@),
        }
    }
}

/// The application records starting at `pos`: repeated records up to, and
/// including, a sentinel id. A later record under an id overwrites an
/// earlier one. The two comparisons against the position the node ends at
/// only justify termination; [`lemma_spec_read_node_advances`] shows those
/// branches are never taken.
pub open spec fn spec_read_app_records(input: Seq<u8>, pos: int) -> Result<
    (Map<u32, AppView>, int),
    DecodeError,
>
    decreases input.len() - pos,
{
    if pos < 0 || pos + 4 > input.len() {
        Err(DecodeError::UnexpectedEof)
    } else if le32_at(input, pos) == APP_SENTINEL {
        Ok((Map::empty(), pos + 4))
    } else if pos + 48 > input.len() {
        Err(DecodeError::UnexpectedEof)
    } else {
        match spec_read_node(input, pos + 48, false) {
            Err(e) => Err(e),
            Ok((kv, node_end)) => if node_end <= pos + 48 || node_end > input.len() {
                Err(DecodeError::UnexpectedEof)
            } else {
                let app = AppView {
                    size: le32_at(input, pos + 4),
                    state: le32_at(input, pos + 8),
                    last_update: le32_at(input, pos + 12),
                    access_token: le64_at(input, pos + 16),
                    checksum: input.subrange(pos + 24, pos + 44),
                    change_number: le32_at(input, pos + 44),
                    key_values: kv,
                };
                match spec_read_app_records(input, node_end) {
                    Err(e) => Err(e),
                    Ok((rest, end)) => Ok(
                        (map![le32_at(input, pos) => app].union_prefer_right(rest), end),
                    ),
                }
            },
        }
    }
}

/// The package records starting at `pos`; the same shape as
/// [`spec_read_app_records`] with the package prefix and sentinel.
pub open spec fn spec_read_package_records(input: Seq<u8>, pos: int) -> Result<
    (Map<u32, PackageView>, int),
    DecodeError,
>
    decreases input.len() - pos,
{
    if pos < 0 || pos + 4 > input.len() {
        Err(DecodeError::UnexpectedEof)
    } else if le32_at(input, pos) == PACKAGE_SENTINEL {
        Ok((Map::empty(), pos + 4))
    } else if pos + 36 > input.len() {
        Err(DecodeError::UnexpectedEof)
    } else {
        match spec_read_node(input, pos + 36, false) {
            Err(e) => Err(e),
            Ok((kv, node_end)) => if node_end <= pos + 36 || node_end > input.len() {
                Err(DecodeError::UnexpectedEof)
            } else {
                let package = PackageView {
                    checksum: input.subrange(pos + 4, pos + 24),
                    change_number: le32_at(input, pos + 24),
                    pics: le64_at(input, pos + 28),
                    key_values: kv,
                };
                match spec_read_package_records(input, node_end) {
                    Err(e) => Err(e),
                    Ok((rest, end)) => Ok(
                        (map![le32_at(input, pos) => package].union_prefer_right(rest), end),
                    ),
                }
            },
        }
    }
}

/// The application catalog an input decodes to: the 8-byte header, then
/// records up to the sentinel; bytes past the sentinel are ignored.
pub open spec fn spec_load_app_info(input: Seq<u8>) -> Result<AppInfoView, DecodeError> {
    if input.len() < 8 {
        Err(DecodeError::UnexpectedEof)
    } else {
        match spec_read_app_records(input, 8) {
            Err(e) => Err(e),
            Ok((apps, end)) => Ok(
                (AppInfoView { version: le32_at(input, 0), universe: le32_at(input, 4), apps }),
            ),
        }
    }
}

/// The package catalog an input decodes to; see [`spec_load_app_info`].
pub open spec fn spec_load_package_info(input: Seq<u8>) -> Result<PackageInfoView, DecodeError> {
    if input.len() < 8 {
        Err(DecodeError::UnexpectedEof)
    } else {
        match spec_read_package_records(input, 8) {
            Err(e) => Err(e),
            Ok((packages, end)) => Ok(
                (PackageInfoView {
                    version: le32_at(input, 0),
                    universe: le32_at(input, 4),
                    packages,
                }),
            ),
        }
    }
}

impl App {
    /// Walks a path of keys through this record's key/value tree; see
    /// [`KeyValue::lookup`].
    pub fn get(&self, keys: &[String]) -> (r: Option<&Value>)
        ensures
            match r {
                Some(v) => spec_lookup(self.key_values@, path_view(keys@)) == Some(v@),
                None => spec_lookup(self.key_values@, path_view(keys@)) is None,
            },
    {
        self.key_values.lookup(keys)
    }
}

impl Package {
    /// Walks a path of keys through this record's key/value tree; see
    /// [`KeyValue::lookup`].
    pub fn get(&self, keys: &[String]) -> (r: Option<&Value>)
        ensures
            match r {
                Some(v) => spec_lookup(self.key_values@, path_view(keys@)) == Some(v@),
                None => spec_lookup(self.key_values@, path_view(keys@)) is None,
            },
    {
        self.key_values.lookup(keys)
    }
}

impl AppInfo {
    /// Decodes an application catalog and is proved to return exactly what
    /// [`spec_load_app_info`] prescribes: the denoted catalog on success,
    /// the owed error otherwise.
    pub fn load(input: &[u8]) -> (r: Result<AppInfo, DecodeError>)
        ensures
            ({
                let sr = spec_load_app_info(input@);
                match r {
                    Ok(info) => sr matches Ok(v) && v == info@,
                    Err(e) => sr matches Err(e2) && e2 == e,
                }
            }),
    {
        let (version, p1) = match read_u32_le(input, 0) {
            Ok(x) => x,
            Err(e) => {
                return Err(e);
            },
        };
        let (universe, header_end) = match read_u32_le(input, p1) {
            Ok(x) => x,
            Err(e) => {
                return Err(e);
            },
        };
        let mut apps: HashMap<u32, App> = HashMap::new();
        let mut pos: usize = header_end;
        loop
            invariant
                8 <= pos,
                input@.len() >= 8,
                version == le32_at(input@, 0),
                universe == le32_at(input@, 4),
                ({
                    let full = spec_read_app_records(input@, 8);
                    match spec_read_app_records(input@, pos as int) {
                        Ok(p) => full matches Ok(q) && q.0 == apps@.map_values(
                            |a: App| a@,
                        ).union_prefer_right(p.0) && q.1 == p.1,
                        Err(e) => full matches Err(e2) && e2 == e,
                    }
                }),
            decreases input@.len() - pos,
        {
            let (app_id, q1) = match read_u32_le(input, pos) {
                Ok(x) => x,
                Err(e) => {
                    return Err(e);
                },
            };
            if app_id == APP_SENTINEL {
                proof {
                    assert(apps@.map_values(|a: App| a@).union_prefer_right(
                        Map::empty(),
                    ) =~= apps@.map_values(|a: App| a@));
                }
                return Ok(AppInfo { version, universe, apps });
            }
            let (size, q2) = match read_u32_le(input, q1) {
                Ok(x) => x,
                Err(e) => {
                    return Err(e);
                },
            };
            let (state, q3) = match read_u32_le(input, q2) {
                Ok(x) => x,
                Err(e) => {
                    return Err(e);
                },
            };
            let (last_update, q4) = match read_u32_le(input, q3) {
                Ok(x) => x,
                Err(e) => {
                    return Err(e);
                },
            };
            let (access_token, q5) = match read_u64_le(input, q4) {
                Ok(x) => x,
                Err(e) => {
                    return Err(e);
                },
            };
            let (checksum, q6) = match read_bytes(input, q5, 20) {
                Ok(x) => x,
                Err(e) => {
                    return Err(e);
                },
            };
            let (change_number, q7) = match read_u32_le(input, q6) {
                Ok(x) => x,
                Err(e) => {
                    return Err(e);
                },
            };
            let (key_values, node_end) = match binary_loads(input, q7, false) {
                Ok(x) => x,
                Err(e) => {
                    return Err(e);
                },
            };
            proof {
                lemma_spec_read_node_advances(input@, q7 as int, false);
            }
            let app = App {
                size,
                state,
                last_update,
                access_token,
                checksum,
                change_number,
                key_values,
            };
            let ghost apps_prev = apps@;
            let ghost app_v = app@;
            apps.insert(app_id, app);
            proof {
                assert(apps@.map_values(|a: App| a@) =~= apps_prev.map_values(
                    |a: App| a@,
                ).insert(app_id, app_v));
                match spec_read_app_records(input@, node_end as int) {
                    Ok(p) => {
                        assert(apps_prev.map_values(|a: App| a@).union_prefer_right(
                            map![app_id => app_v].union_prefer_right(p.0),
                        ) =~= apps@.map_values(|a: App| a@).union_prefer_right(p.0));
                    },
                    Err(_) => {},
                }
            }
            pos = node_end;
        }
    }
}

impl PackageInfo {
    /// Decodes a package catalog and is proved to return exactly what
    /// [`spec_load_package_info`] prescribes: the denoted catalog on
    /// success, the owed error otherwise.
    pub fn load(input: &[u8]) -> (r: Result<PackageInfo, DecodeError>)
        ensures
            ({
                let sr = spec_load_package_info(input@);
                match r {
                    Ok(info) => sr matches Ok(v) && v == info@,
                    Err(e) => sr matches Err(e2) && e2 == e,
                }
            }),
    {
        let (version, p1) = match read_u32_le(input, 0) {
            Ok(x) => x,
            Err(e) => {
                return Err(e);
            },
        };
        let (universe, header_end) = match read_u32_le(input, p1) {
            Ok(x) => x,
            Err(e) => {
                return Err(e);
            },
        };
        let mut packages: HashMap<u32, Package> = HashMap::new();
        let mut pos: usize = header_end;
        loop
            invariant
                8 <= pos,
                input@.len() >= 8,
                version == le32_at(input@, 0),
                universe == le32_at(input@, 4),
                ({
                    let full = spec_read_package_records(input@, 8);
                    match spec_read_package_records(input@, pos as int) {
                        Ok(p) => full matches Ok(q) && q.0 == packages@.map_values(
                            |a: Package| a@,
                        ).union_prefer_right(p.0) && q.1 == p.1,
                        Err(e) => full matches Err(e2) && e2 == e,
                    }
                }),
            decreases input@.len() - pos,
        {
            let (package_id, q1) = match read_u32_le(input, pos) {
                Ok(x) => x,
                Err(e) => {
                    return Err(e);
                },
            };
            if package_id == PACKAGE_SENTINEL {
                proof {
                    assert(packages@.map_values(|a: Package| a@).union_prefer_right(
                        Map::empty(),
                    ) =~= packages@.map_values(|a: Package| a@));
                }
                return Ok(PackageInfo { version, universe, packages });
            }
            let (checksum, q2) = match read_bytes(input, q1, 20) {
                Ok(x) => x,
                Err(e) => {
                    return Err(e);
                },
            };
            let (change_number, q3) = match read_u32_le(input, q2) {
                Ok(x) => x,
                Err(e) => {
                    return Err(e);
                },
            };
            let (pics, q4) = match read_u64_le(input, q3) {
                Ok(x) => x,
                Err(e) => {
                    return Err(e);
                },
            };
            let (key_values, node_end) = match binary_loads(input, q4, false) {
                Ok(x) => x,
                Err(e) => {
                    return Err(e);
                },
            };
            proof {
                lemma_spec_read_node_advances(input@, q4 as int, false);
            }
            let package = Package { checksum, change_number, pics, key_values };
            let ghost packages_prev = packages@;
            let ghost package_v = package@;
            packages.insert(package_id, package);
            proof {
                assert(packages@.map_values(|a: Package| a@) =~= packages_prev.map_values(
                    |a: Package| a@,
                ).insert(package_id, package_v));
                match spec_read_package_records(input@, node_end as int) {
                    Ok(p) => {
                        assert(packages_prev.map_values(|a: Package| a@).union_prefer_right(
                            map![package_id => package_v].union_prefer_right(p.0),
                        ) =~= packages@.map_values(|a: Package| a@).union_prefer_right(p.0));
                    },
                    Err(_) => {},
                }
            }
            pos = node_end;
        }
    }
}

/// An application record stream that decodes occupies at least its sentinel
/// id and ends within the input.
pub proof fn lemma_spec_read_app_records_advances(input: Seq<u8>, pos: int)
    ensures
        spec_read_app_records(input, pos) matches Ok(p) ==> pos + 4 <= p.1 <= input.len(),
    decreases input.len() - pos,
{
    if 0 <= pos && pos + 4 <= input.len() && le32_at(input, pos) != APP_SENTINEL && pos + 48
        <= input.len() {
        lemma_spec_read_node_advances(input, pos + 48, false);
        match spec_read_node(input, pos + 48, false) {
            Ok((kv, node_end)) => {
                if pos + 48 < node_end <= input.len() {
                    lemma_spec_read_app_records_advances(input, node_end);
                }
            },
            Err(_) => {},
        }
    }
}

/// A package record stream that decodes occupies at least its sentinel id
/// and ends within the input.
pub proof fn lemma_spec_read_package_records_advances(input: Seq<u8>, pos: int)
    ensures
        spec_read_package_records(input, pos) matches Ok(p) ==> pos + 4 <= p.1 <= input.len(),
    decreases input.len() - pos,
{
    if 0 <= pos && pos + 4 <= input.len() && le32_at(input, pos) != PACKAGE_SENTINEL && pos + 36
        <= input.len() {
        lemma_spec_read_node_advances(input, pos + 36, false);
        match spec_read_node(input, pos + 36, false) {
            Ok((kv, node_end)) => {
                if pos + 36 < node_end <= input.len() {
                    lemma_spec_read_package_records_advances(input, node_end);
                }
            },
            Err(_) => {},
        }
    }
}

/// An application record stream reads the same from any prefix of the input
/// that still holds all its bytes.
proof fn lemma_app_records_stable(input: Seq<u8>, pos: int, cut: int)
    requires
        spec_read_app_records(input, pos) matches Ok(p) && p.1 <= cut,
        cut <= input.len(),
    ensures
        spec_read_app_records(input.subrange(0, cut), pos) == spec_read_app_records(input, pos),
    decreases input.len() - pos,
{
    lemma_spec_read_app_records_advances(input, pos);
    let trunc = input.subrange(0, cut);
    assert(trunc.subrange(pos, pos + 4) =~= input.subrange(pos, pos + 4));
    if le32_at(input, pos) != APP_SENTINEL {
        lemma_spec_read_node_advances(input, pos + 48, false);
        match spec_read_node(input, pos + 48, false) {
            Ok((kv, node_end)) => {
                lemma_spec_read_app_records_advances(input, node_end);
                lemma_spec_read_node_stable(input, pos + 48, false, cut);
                lemma_app_records_stable(input, node_end, cut);
                assert(trunc.subrange(pos + 4, pos + 8) =~= input.subrange(pos + 4, pos + 8));
                assert(trunc.subrange(pos + 8, pos + 12) =~= input.subrange(pos + 8, pos + 12));
                assert(trunc.subrange(pos + 12, pos + 16) =~= input.subrange(pos + 12, pos + 16));
                assert(trunc.subrange(pos + 16, pos + 24) =~= input.subrange(pos + 16, pos + 24));
                assert(trunc.subrange(pos + 24, pos + 44) =~= input.subrange(pos + 24, pos + 44));
                assert(trunc.subrange(pos + 44, pos + 48) =~= input.subrange(pos + 44, pos + 48));
            },
            Err(_) => {},
        }
    }
}

/// A package record stream reads the same from any prefix of the input that
/// still holds all its bytes.
proof fn lemma_package_records_stable(input: Seq<u8>, pos: int, cut: int)
    requires
        spec_read_package_records(input, pos) matches Ok(p) && p.1 <= cut,
        cut <= input.len(),
    ensures
        spec_read_package_records(input.subrange(0, cut), pos) == spec_read_package_records(
            input,
            pos,
        ),
    decreases input.len() - pos,
{
    lemma_spec_read_package_records_advances(input, pos);
    let trunc = input.subrange(0, cut);
    assert(trunc.subrange(pos, pos + 4) =~= input.subrange(pos, pos + 4));
    if le32_at(input, pos) != PACKAGE_SENTINEL {
        lemma_spec_read_node_advances(input, pos + 36, false);
        match spec_read_node(input, pos + 36, false) {
            Ok((kv, node_end)) => {
                lemma_spec_read_package_records_advances(input, node_end);
                lemma_spec_read_node_stable(input, pos + 36, false, cut);
                lemma_package_records_stable(input, node_end, cut);
                assert(trunc.subrange(pos + 4, pos + 24) =~= input.subrange(pos + 4, pos + 24));
                assert(trunc.subrange(pos + 24, pos + 28) =~= input.subrange(pos + 24, pos + 28));
                assert(trunc.subrange(pos + 28, pos + 36) =~= input.subrange(pos + 28, pos + 36));
            },
            Err(_) => {},
        }
    }
}

/// Cutting the input anywhere strictly before the end of an application
/// record stream that decodes leaves `UnexpectedEof`: a record whose
/// fixed-width fields or node body end before completion is reported as
/// truncated, never as something else.
pub proof fn lemma_app_records_truncated(input: Seq<u8>, pos: int, cut: int)
    requires
        spec_read_app_records(input, pos) matches Ok(p) && cut < p.1,
        pos <= cut,
    ensures
        spec_read_app_records(input.subrange(0, cut), pos) == Err::<
            (Map<u32, AppView>, int),
            DecodeError,
        >(DecodeError::UnexpectedEof),
    decreases input.len() - pos,
{
    lemma_spec_read_app_records_advances(input, pos);
    let trunc = input.subrange(0, cut);
    assert(trunc.len() == cut);
    if pos + 4 <= cut {
        assert(trunc.subrange(pos, pos + 4) =~= input.subrange(pos, pos + 4));
        if pos + 48 <= cut {
            lemma_spec_read_node_advances(input, pos + 48, false);
            match spec_read_node(input, pos + 48, false) {
                Ok((kv, node_end)) => {
                    if cut < node_end {
                        lemma_spec_read_node_truncated(input, pos + 48, false, cut);
                    } else {
                        lemma_spec_read_node_stable(input, pos + 48, false, cut);
                        lemma_app_records_truncated(input, node_end, cut);
                    }
                },
                Err(_) => {},
            }
        }
    }
}

/// Cutting the input anywhere strictly before the end of a package record
/// stream that decodes leaves `UnexpectedEof`.
pub proof fn lemma_package_records_truncated(input: Seq<u8>, pos: int, cut: int)
    requires
        spec_read_package_records(input, pos) matches Ok(p) && cut < p.1,
        pos <= cut,
    ensures
        spec_read_package_records(input.subrange(0, cut), pos) == Err::<
            (Map<u32, PackageView>, int),
            DecodeError,
        >(DecodeError::UnexpectedEof),
    decreases input.len() - pos,
{
    lemma_spec_read_package_records_advances(input, pos);
    let trunc = input.subrange(0, cut);
    assert(trunc.len() == cut);
    if pos + 4 <= cut {
        assert(trunc.subrange(pos, pos + 4) =~= input.subrange(pos, pos + 4));
        if pos + 36 <= cut {
            lemma_spec_read_node_advances(input, pos + 36, false);
            match spec_read_node(input, pos + 36, false) {
                Ok((kv, node_end)) => {
                    if cut < node_end {
                        lemma_spec_read_node_truncated(input, pos + 36, false, cut);
                    } else {
                        lemma_spec_read_node_stable(input, pos + 36, false, cut);
                        lemma_package_records_truncated(input, node_end, cut);
                    }
                },
                Err(_) => {},
            }
        }
    }
}

/// Truncated input yields `UnexpectedEof` and no catalog: for an input
/// whose application record stream decodes, cutting the input anywhere
/// strictly before the end of that stream makes the whole decode fail with
/// `UnexpectedEof`.
pub proof fn lemma_app_catalog_truncated(input: Seq<u8>, cut: int)
    requires
        spec_read_app_records(input, 8) matches Ok(p) && cut < p.1,
        0 <= cut,
    ensures
        spec_load_app_info(input.subrange(0, cut)) == Err::<AppInfoView, DecodeError>(
            DecodeError::UnexpectedEof,
        ),
{
    if cut >= 8 {
        lemma_app_records_truncated(input, 8, cut);
    } else {
        lemma_spec_read_app_records_advances(input, 8);
    }
}

/// Truncated input yields `UnexpectedEof` and no catalog: for an input
/// whose package record stream decodes, cutting the input anywhere strictly
/// before the end of that stream makes the whole decode fail with
/// `UnexpectedEof`.
pub proof fn lemma_package_catalog_truncated(input: Seq<u8>, cut: int)
    requires
        spec_read_package_records(input, 8) matches Ok(p) && cut < p.1,
        0 <= cut,
    ensures
        spec_load_package_info(input.subrange(0, cut)) == Err::<PackageInfoView, DecodeError>(
            DecodeError::UnexpectedEof,
        ),
{
    if cut >= 8 {
        lemma_package_records_truncated(input, 8, cut);
    } else {
        lemma_spec_read_package_records_advances(input, 8);
    }
}

/// Decoding is deterministic: the application catalog, or error, an input
/// decodes to is a function of the bytes alone, so decoding the same byte
/// sequence twice yields structurally identical catalogs.
pub proof fn lemma_app_decode_deterministic(bytes1: Seq<u8>, bytes2: Seq<u8>)
    requires
        bytes1 == bytes2,
    ensures
        spec_load_app_info(bytes1) == spec_load_app_info(bytes2),
{
}

/// Decoding is deterministic: the package catalog, or error, an input
/// decodes to is a function of the bytes alone, so decoding the same byte
/// sequence twice yields structurally identical catalogs.
pub proof fn lemma_package_decode_deterministic(bytes1: Seq<u8>, bytes2: Seq<u8>)
    requires
        bytes1 == bytes2,
    ensures
        spec_load_package_info(bytes1) == spec_load_package_info(bytes2),
{
}

} // verus!

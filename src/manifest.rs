//! The manifest model and the decisions of a build pass.
use vstd::prelude::*;
use vstd::string::{StrSliceExecFns, StringExecFns};
use crate::asset::{Asset, AssetType, asset_type_of_label};
use crate::build_cache::{BuildCache, checksum_of, dirty, hex_digit, hex_digit_str};
use crate::processors::{AssetError, WavContent, audio_supported, le_stream, process_audio, process_data, process_texture, rgba8_of};
use crate::xml::{XmlNode, attribute_value, find_attribute, find_node, first_match, lemma_first_match_bounds, node_matches, parse_xml, xml_nodes_of};

verus! {

/// Why a manifest descriptor was refused.
#[derive(Debug, Clone, Copy, PartialEq, Eq, Structural)]
pub enum ManifestError {
    /// The descriptor is not well-formed XML.
    ParseError,
    /// The root element is not `PakManifest`.
    WrongRoot,
    /// `OutputDir` or `Compress` is missing or has no text, or an asset lacks `Type` or `Source`.
    MissingField,
    /// The output directory, an asset's source or an asset's name is absolute or climbs
    /// out of its directory with a `..` segment.
    PathOutsideRoot,
}

/// A `..` segment starts at position `i` of a `/`-separated path.
pub open spec fn parent_segment_at(p: Seq<char>, i: int) -> bool {
    &&& 0 <= i
    &&& i + 2 <= p.len()
    &&& p[i] == '.'
    &&& p[i + 1] == '.'
    &&& (i == 0 || p[i - 1] == '/')
    &&& (i + 2 == p.len() || p[i + 2] == '/')
}

/// A relative path that stays below the directory it is resolved against.
pub open spec fn stays_inside(p: Seq<char>) -> bool {
    &&& !(p.len() > 0 && p[0] == '/')
    &&& forall|i: int| !parent_segment_at(p, i)
}

/// Whether a path is relative and has no `..` segment.
pub fn path_stays_inside(p: &str) -> (r: bool)
    ensures
        r == stays_inside(p@),
{
    let n = p.unicode_len();
    if n > 0 && p.get_char(0) == '/' {
        return false;
    }
    let mut i: usize = 0;
    while i < n
        invariant
            i <= n,
            n == p@.len(),
            forall|j: int| 0 <= j < i ==> !parent_segment_at(p@, j),
        decreases n - i,
    {
        if i + 1 < n && p.get_char(i) == '.' && p.get_char(i + 1) == '.' && (i == 0 || p.get_char(i - 1) == '/') && (i + 2 == n || p.get_char(i + 2) == '/') {
            assert(parent_segment_at(p@, i as int));
            return false;
        }
        i = i + 1;
    }
    true
}

/// An asset as plain values: name, kind and source path.
pub type AssetView = (Seq<char>, AssetType, Seq<char>);

pub open spec fn asset_view(a: Asset) -> AssetView {
    (a.name@, a.asset_type, a.source@)
}

/// The position of the first element of the document: its root element.
pub open spec fn first_element(nodes: Seq<XmlNode>) -> Option<int>
    decreases nodes.len(),
{
    if nodes.len() == 0 {
        None
    } else {
        match first_element(nodes.drop_last()) {
            Some(i) => Some(i),
            None => if nodes.last().is_element {
                Some(nodes.len() - 1)
            } else {
                None
            },
        }
    }
}

/// The text of the first element named `tag`; `None` when there is none or it has no text.
pub open spec fn setting(nodes: Seq<XmlNode>, tag: Seq<char>) -> Option<Seq<char>> {
    match first_match(nodes, tag, None) {
        Some(i) => match nodes[i].text {
            Some(t) => Some(t@),
            None => None,
        },
        None => None,
    }
}

/// The text of the first child element named `tag` of the node `parent` (empty when it has
/// none); `None` when there is no such child.
pub open spec fn child_text(nodes: Seq<XmlNode>, tag: Seq<char>, parent: usize) -> Option<Seq<char>> {
    match first_match(nodes, tag, Some(parent)) {
        Some(j) => Some(
            match nodes[j].text {
                Some(t) => t@,
                None => Seq::empty(),
            },
        ),
        None => None,
    }
}

/// What an `Asset` element declares: nothing when the node is no `Asset` element or has no
/// non-empty `name` attribute; an error when it lacks `Type` or `Source`, or when its name or
/// source would leave the output or root directory.
pub open spec fn asset_entry(nodes: Seq<XmlNode>, n: XmlNode) -> Option<Result<AssetView, ManifestError>> {
    if !node_matches(n, "Asset"@, None) {
        None
    } else {
        match attribute_value(n.attributes@, "name"@) {
            None => None,
            Some(name) => if name.len() == 0 {
                None
            } else {
                match (child_text(nodes, "Type"@, n.id), child_text(nodes, "Source"@, n.id)) {
                    (Some(t), Some(s)) => if stays_inside(name) && stays_inside(s) {
                        Some(Ok((name, asset_type_of_label(t), s)))
                    } else {
                        Some(Err(ManifestError::PathOutsideRoot))
                    },
                    _ => Some(Err(ManifestError::MissingField)),
                }
            },
        }
    }
}

/// The assets declared by the first `k` nodes, in document order; the first error wins.
pub open spec fn assets_upto(nodes: Seq<XmlNode>, k: int) -> Result<Seq<AssetView>, ManifestError>
    decreases k,
{
    if k <= 0 {
        Ok(Seq::empty())
    } else {
        match assets_upto(nodes, k - 1) {
            Err(e) => Err(e),
            Ok(s) => match asset_entry(nodes, nodes[k - 1]) {
                None => Ok(s),
                Some(Ok(a)) => Ok(s.push(a)),
                Some(Err(e)) => Err(e),
            },
        }
    }
}

/// What a descriptor declares: output directory, compression flag and assets. Every element
/// of a document lies under its root element, so searching all nodes in document order finds
/// what a search under the root would.
pub open spec fn manifest_of(nodes: Seq<XmlNode>) -> Result<(Seq<char>, bool, Seq<AssetView>), ManifestError> {
    match first_element(nodes) {
        None => Err(ManifestError::WrongRoot),
        Some(r) => if nodes[r].tag@ != "PakManifest"@ {
            Err(ManifestError::WrongRoot)
        } else {
            match (setting(nodes, "OutputDir"@), setting(nodes, "Compress"@)) {
                (None, _) => Err(ManifestError::MissingField),
                (Some(out), _) if !stays_inside(out) => Err(ManifestError::PathOutsideRoot),
                (_, None) => Err(ManifestError::MissingField),
                (Some(out), Some(c)) => match assets_upto(nodes, nodes.len() as int) {
                    Err(e) => Err(e),
                    Ok(a) => Ok((out, c == "true"@, a)),
                },
            }
        },
    }
}

/// The path of the directory that receives the artifacts.
pub open spec fn output_path_of(root_dir: Seq<char>, output_dir: Seq<char>) -> Seq<char> {
    root_dir + "/"@ + output_dir
}

/// The path of an asset's artifact: `<root>/<output>/<name>.xpak`.
pub open spec fn artifact_path_of(root_dir: Seq<char>, output_dir: Seq<char>, name: Seq<char>) -> Seq<char> {
    output_path_of(root_dir, output_dir) + "/"@ + name + ".xpak"@
}

/// The bytes that the transcoder of `kind` makes of a source, or why it cannot.
pub open spec fn transcoded(kind: AssetType, data: Seq<u8>, wav: Option<WavContent>) -> Result<Seq<u8>, AssetError> {
    match kind {
        AssetType::Texture => match rgba8_of(data) {
            Some(p) => Ok(p),
            None => Err(AssetError::DecodeFailed),
        },
        AssetType::Audio => match wav {
            None => Err(AssetError::DecodeFailed),
            Some(w) => if audio_supported(w.bits_per_sample, w.float_samples) {
                Ok(le_stream(w.sample_bits@))
            } else {
                Err(AssetError::UnsupportedFormat)
            },
        },
        AssetType::Data => Ok(data),
    }
}

/// The content of an asset's source file, and for a WAV source what its decoder read.
#[derive(Debug)]
pub struct SourceFile {
    pub data: Vec<u8>,
    pub wav: Option<WavContent>,
}

/// What a build pass does with one asset.
#[derive(Debug)]
pub enum AssetPlan {
    /// The stored checksum matches the source: nothing to do.
    Skip,
    /// Write `bytes` to `path`, then record `checksum` for the source.
    Write { path: String, bytes: Vec<u8>, checksum: String },
    /// The source changed but its transcoder refused it.
    Failed { error: AssetError },
}

/// The plain view of a list of assets.
pub open spec fn assets_view(v: Seq<Asset>) -> Seq<AssetView> {
    v.map_values(|a: Asset| asset_view(a))
}

fn find_first_element(nodes: &Vec<XmlNode>) -> (r: Option<usize>)
    ensures
        match r {
            Some(i) => first_element(nodes@) == Some(i as int) && i < nodes@.len(),
            None => first_element(nodes@) is None,
        },
{
    let mut i: usize = 0;
    while i < nodes.len()
        invariant
            i <= nodes.len(),
            first_element(nodes@.take(i as int)) is None,
        decreases nodes.len() - i,
    {
        assert(nodes@.take(i as int + 1).drop_last() =~= nodes@.take(i as int));
        if nodes[i].is_element {
            proof {
                lemma_first_element_prefix(nodes@, i as int + 1);
            }
            return Some(i);
        }
        i = i + 1;
    }
    assert(nodes@.take(i as int) =~= nodes@);
    None
}

proof fn lemma_first_element_prefix(nodes: Seq<XmlNode>, k: int)
    requires
        0 <= k <= nodes.len(),
        first_element(nodes.take(k)) is Some,
    ensures
        first_element(nodes) == first_element(nodes.take(k)),
    decreases nodes.len() - k,
{
    if k < nodes.len() {
        assert(nodes.take(k + 1).drop_last() =~= nodes.take(k));
        lemma_first_element_prefix(nodes, k + 1);
    } else {
        assert(nodes.take(k) =~= nodes);
    }
}

fn read_setting(nodes: &Vec<XmlNode>, tag: &str) -> (r: Option<String>)
    ensures
        match r {
            Some(t) => setting(nodes@, tag@) == Some(t@),
            None => setting(nodes@, tag@) is None,
        },
{
    proof {
        lemma_first_match_bounds(nodes@, tag@, None);
    }
    match find_node(nodes, tag, None) {
        Some(i) => match &nodes[i].text {
            Some(t) => Some(t.clone()),
            None => None,
        },
        None => None,
    }
}

fn read_child_text(nodes: &Vec<XmlNode>, tag: &str, parent: usize) -> (r: Option<String>)
    ensures
        match r {
            Some(t) => child_text(nodes@, tag@, parent) == Some(t@),
            None => child_text(nodes@, tag@, parent) is None,
        },
{
    proof {
        lemma_first_match_bounds(nodes@, tag@, Some(parent));
    }
    match find_node(nodes, tag, Some(parent)) {
        Some(i) => match &nodes[i].text {
            Some(t) => Some(t.clone()),
            None => Some(String::new()),
        },
        None => None,
    }
}

fn read_asset(nodes: &Vec<XmlNode>, i: usize) -> (r: Option<Result<Asset, ManifestError>>)
    requires
        i < nodes@.len(),
    ensures
        match r {
            None => asset_entry(nodes@, nodes@[i as int]) is None,
            Some(Ok(a)) => asset_entry(nodes@, nodes@[i as int]) == Some(Ok::<AssetView, ManifestError>(asset_view(a))),
            Some(Err(e)) => asset_entry(nodes@, nodes@[i as int]) == Some(Err::<AssetView, ManifestError>(e)),
        },
{
    let n = &nodes[i];
    let wanted = String::from_str("Asset");
    if !(n.is_element && n.tag == wanted) {
        return None;
    }
    let name = match find_attribute(&n.attributes, "name") {
        Some(name) => name,
        None => return None,
    };
    if name.as_str().unicode_len() == 0 {
        return None;
    }
    let kind = read_child_text(nodes, "Type", n.id);
    let source = read_child_text(nodes, "Source", n.id);
    match (kind, source) {
        (Some(t), Some(s)) => if path_stays_inside(name.as_str()) && path_stays_inside(s.as_str()) {
            Some(Ok(Asset::new(name.as_str(), t.as_str(), s.as_str())))
        } else {
            Some(Err(ManifestError::PathOutsideRoot))
        },
        _ => Some(Err(ManifestError::MissingField)),
    }
}

proof fn lemma_assets_error_sticks(nodes: Seq<XmlNode>, k: int, n: int)
    requires
        0 <= k <= n,
        assets_upto(nodes, k) is Err,
    ensures
        assets_upto(nodes, n) == assets_upto(nodes, k),
    decreases n - k,
{
    if k < n {
        lemma_assets_error_sticks(nodes, k, n - 1);
    }
}

fn read_assets(nodes: &Vec<XmlNode>) -> (r: Result<Vec<Asset>, ManifestError>)
    ensures
        match r {
            Ok(v) => assets_upto(nodes@, nodes@.len() as int) == Ok::<Seq<AssetView>, ManifestError>(assets_view(v@)),
            Err(e) => assets_upto(nodes@, nodes@.len() as int) == Err::<Seq<AssetView>, ManifestError>(e),
        },
{
    let mut list: Vec<Asset> = Vec::new();
    let mut i: usize = 0;
    assert(assets_view(list@) =~= Seq::<AssetView>::empty());
    while i < nodes.len()
        invariant
            i <= nodes.len(),
            assets_upto(nodes@, i as int) == Ok::<Seq<AssetView>, ManifestError>(assets_view(list@)),
        decreases nodes.len() - i,
    {
        match read_asset(nodes, i) {
            None => {},
            Some(Ok(a)) => {
                let ghost before = list@;
                list.push(a);
                assert(assets_view(list@) =~= assets_view(before).push(asset_view(a)));
            },
            Some(Err(e)) => {
                proof {
                    lemma_assets_error_sticks(nodes@, i as int + 1, nodes@.len() as int);
                }
                return Err(e);
            },
        }
        i = i + 1;
    }
    Ok(list)
}

/// The action that one invocation runs.
#[derive(Debug, Clone, Copy, PartialEq, Eq, Structural)]
pub enum Action {
    Build,
    Rebuild,
    Clean,
}

/// One step of an action, in the order the action runs them.
#[derive(Debug, Clone, Copy, PartialEq, Eq, Structural)]
pub enum Step {
    /// Remove the output directory if it exists, then create it empty.
    ResetOutputDirectory,
    /// Create the output directory if it does not exist; keep what it holds.
    EnsureOutputDirectory,
    /// Plan every asset, write the artifacts of those that changed, record their checksums.
    BuildAssets,
    /// Persist the checksum cache.
    SaveCache,
}

/// The steps of each action. A build never wipes the output directory, so an asset skipped
/// for an unchanged checksum keeps its earlier artifact; only `Clean` and `Rebuild` empty it.
/// `Rebuild` keeps the cache: it empties the directory and then writes only the assets whose
/// sources changed since the cache was saved, so the artifacts of unchanged sources are left
/// missing.
pub open spec fn steps_of(action: Action) -> Seq<Step> {
    match action {
        Action::Clean => seq![Step::ResetOutputDirectory],
        Action::Build => seq![Step::EnsureOutputDirectory, Step::BuildAssets, Step::SaveCache],
        Action::Rebuild => seq![Step::ResetOutputDirectory, Step::BuildAssets, Step::SaveCache],
    }
}

impl Action {
    /// The action chosen by exactly one of three flags; `None` for any other combination.
    pub fn from_flags(build: bool, rebuild: bool, clean: bool) -> (r: Option<Action>)
        ensures
            r == (if build && !rebuild && !clean {
                Some(Action::Build)
            } else if !build && rebuild && !clean {
                Some(Action::Rebuild)
            } else if !build && !rebuild && clean {
                Some(Action::Clean)
            } else {
                None::<Action>
            }),
    {
        match (build, rebuild, clean) {
            (true, false, false) => Some(Action::Build),
            (false, true, false) => Some(Action::Rebuild),
            (false, false, true) => Some(Action::Clean),
            _ => None,
        }
    }

    /// The steps this action runs, in order.
    pub fn steps(&self) -> (r: Vec<Step>)
        ensures
            r@ == steps_of(*self),
    {
        let r = match self {
            Action::Clean => vec![Step::ResetOutputDirectory],
            Action::Build => vec![Step::EnsureOutputDirectory, Step::BuildAssets, Step::SaveCache],
            Action::Rebuild => vec![Step::ResetOutputDirectory, Step::BuildAssets, Step::SaveCache],
        };
        assert(r@ =~= steps_of(*self));
        r
    }
}

/// The root aggregate: settings, assets in document order and the checksum cache.
pub struct Manifest {
    pub name: String,
    pub root_dir: String,
    pub output_dir: String,
    pub compress: bool,
    pub assets: Vec<Asset>,
    pub manifest_path: String,
    pub cache: BuildCache,
}

/// Decimal digits of a number, most significant first.
pub open spec fn decimal_of(n: nat) -> Seq<char>
    decreases n,
{
    if n < 10 {
        seq![hex_digit(n as int)]
    } else {
        decimal_of(n / 10) + seq![hex_digit((n % 10) as int)]
    }
}

fn decimal(n: usize) -> (r: String)
    ensures
        r@ == decimal_of(n as nat),
    decreases n,
{
    if n < 10 {
        String::from_str(hex_digit_str(n as u8))
    } else {
        let mut r = decimal(n / 10);
        r.append(hex_digit_str((n % 10) as u8));
        r
    }
}

/// The summary that `to_string` prints for a manifest.
pub open spec fn summary_of(name: Seq<char>, output_dir: Seq<char>, compress: bool, count: nat) -> Seq<char> {
    "Manifest: "@ + name + "\n"@ + "Output Dir: "@ + output_dir + "\n"@ + "Compress: "@ + (if compress {
        "true\n"@
    } else {
        "false\n"@
    }) + "Assets: "@ + decimal_of(count) + "\n"@
}

/// What a build pass owes for asset `i` whose source file is `src`: a skip exactly when the
/// cache holds the source's current checksum; otherwise the transcoder's bytes for the
/// artifact path, or its error.
pub open spec fn plan_fits(m: Manifest, i: int, src: SourceFile, p: AssetPlan) -> bool {
    let a = m.assets@[i];
    let c = checksum_of(src.data@);
    if !dirty(m.cache_view(), a.source@, c) {
        p is Skip
    } else {
        match transcoded(a.asset_type, src.data@, src.wav) {
            Ok(b) => p matches AssetPlan::Write { path, bytes, checksum } && path@ == artifact_path_of(
                m.root_dir@,
                m.output_dir@,
                a.name@,
            ) && bytes@ == b && checksum@ == c,
            Err(e) => p == AssetPlan::Failed { error: e },
        }
    }
}

impl Manifest {
    /// The table of stored checksums.
    pub open spec fn cache_view(&self) -> Map<Seq<char>, Seq<char>> {
        self.cache@
    }

    pub open spec fn wf(&self) -> bool {
        self.cache.wf()
    }

    /// The manifest that a parsed descriptor declares, loaded from `manifest_path`, named
    /// `name` and rooted at `root_dir`, with `cache` as its checksum cache. Asset elements
    /// without a `name` attribute are skipped.
    pub fn from_nodes(manifest_path: &str, name: &str, root_dir: &str, nodes: &Vec<XmlNode>, cache: BuildCache) -> (r: Result<Manifest, ManifestError>)
        requires
            cache.wf(),
        ensures
            match manifest_of(nodes@) {
                Err(e) => r == Err::<Manifest, ManifestError>(e),
                Ok((out, compress, assets)) => r matches Ok(m) && m.wf() && m.name@ == name@
                    && m.root_dir@ == root_dir@ && m.output_dir@ == out && m.compress == compress
                    && assets_view(m.assets@) == assets && m.cache_view() == cache@,
            },
    {
        let root = match find_first_element(nodes) {
            Some(i) => i,
            None => return Err(ManifestError::WrongRoot),
        };
        if nodes[root].tag != String::from_str("PakManifest") {
            return Err(ManifestError::WrongRoot);
        }
        let output_dir = match read_setting(nodes, "OutputDir") {
            Some(t) => t,
            None => return Err(ManifestError::MissingField),
        };
        if !path_stays_inside(output_dir.as_str()) {
            return Err(ManifestError::PathOutsideRoot);
        }
        let compress = match read_setting(nodes, "Compress") {
            Some(t) => t == String::from_str("true"),
            None => return Err(ManifestError::MissingField),
        };
        let assets = match read_assets(nodes) {
            Ok(a) => a,
            Err(e) => return Err(e),
        };
        Ok(Manifest {
            name: name.to_owned(),
            root_dir: root_dir.to_owned(),
            output_dir,
            compress,
            assets,
            manifest_path: manifest_path.to_owned(),
            cache,
        })
    }

    /// Parses a descriptor's text and builds the manifest it declares (see `from_nodes`).
    pub fn new(manifest_path: &str, name: &str, root_dir: &str, descriptor: &str, cache: BuildCache) -> (r: Result<Manifest, ManifestError>)
        requires
            cache.wf(),
        ensures
            match xml_nodes_of(descriptor@) {
                None => r == Err::<Manifest, ManifestError>(ManifestError::ParseError),
                Some(nodes) => match manifest_of(nodes) {
                    Err(e) => r == Err::<Manifest, ManifestError>(e),
                    Ok((out, compress, assets)) => r matches Ok(m) && m.wf() && m.name@ == name@
                        && m.root_dir@ == root_dir@ && m.output_dir@ == out && m.compress == compress
                        && assets_view(m.assets@) == assets && m.cache_view() == cache@,
                },
            },
    {
        match parse_xml(descriptor) {
            Some(nodes) => Manifest::from_nodes(manifest_path, name, root_dir, &nodes, cache),
            None => Err(ManifestError::ParseError),
        }
    }

    /// A short summary: name, output directory, compression flag and asset count.
    pub fn to_string(&self) -> (r: String)
        ensures
            r@ == summary_of(self.name@, self.output_dir@, self.compress, self.assets@.len()),
    {
        let mut value = String::from_str("Manifest: ");
        value.append(self.name.as_str());
        value.append("\n");
        value.append("Output Dir: ");
        value.append(self.output_dir.as_str());
        value.append("\n");
        value.append("Compress: ");
        if self.compress {
            value.append("true\n");
        } else {
            value.append("false\n");
        }
        value.append("Assets: ");
        value.append(decimal(self.assets.len()).as_str());
        value.append("\n");
        value
    }

    /// The directory that receives the artifacts.
    pub fn output_directory(&self) -> (r: String)
        ensures
            r@ == output_path_of(self.root_dir@, self.output_dir@),
    {
        let mut r = self.root_dir.clone();
        r.append("/");
        r.append(self.output_dir.as_str());
        r
    }

    /// The path of asset `i`'s source file.
    pub fn source_path(&self, i: usize) -> (r: String)
        requires
            i < self.assets@.len(),
        ensures
            r@ == self.root_dir@ + "/"@ + self.assets@[i as int].source@,
    {
        let mut r = self.root_dir.clone();
        r.append("/");
        r.append(self.assets[i].source.as_str());
        r
    }

    /// The path of asset `i`'s artifact.
    pub fn artifact_path(&self, i: usize) -> (r: String)
        requires
            i < self.assets@.len(),
        ensures
            r@ == artifact_path_of(self.root_dir@, self.output_dir@, self.assets@[i as int].name@),
    {
        let mut r = self.output_directory();
        r.append("/");
        r.append(self.assets[i].name.as_str());
        r.append(".xpak");
        r
    }

    /// Decides what the build does with asset `i`, whose source file is `src`. The cache is
    /// not changed here: a checksum is recorded only once its artifact is written.
    pub fn plan_asset(&self, i: usize, src: &SourceFile) -> (r: AssetPlan)
        requires
            self.wf(),
            i < self.assets@.len(),
        ensures
            plan_fits(*self, i as int, *src, r),
    {
        let asset = &self.assets[i];
        let checksum = BuildCache::calculate_checksum(src.data.as_slice());
        if !self.cache.is_dirty(asset.source.as_str(), checksum.as_str()) {
            return AssetPlan::Skip;
        }
        let result = match asset.asset_type {
            AssetType::Texture => process_texture(src.data.as_slice()),
            AssetType::Audio => match &src.wav {
                Some(w) => process_audio(w),
                None => Err(AssetError::DecodeFailed),
            },
            AssetType::Data => Ok(process_data(src.data.as_slice())),
        };
        match result {
            Ok(bytes) => AssetPlan::Write { path: self.artifact_path(i), bytes, checksum },
            Err(e) => AssetPlan::Failed { error: e },
        }
    }

    /// Decides a whole build pass: one plan per asset, in document order.
    pub fn plan_build(&self, sources: &Vec<SourceFile>) -> (r: Vec<AssetPlan>)
        requires
            self.wf(),
            sources@.len() == self.assets@.len(),
        ensures
            r@.len() == self.assets@.len(),
            forall|i: int| 0 <= i < r@.len() ==> plan_fits(*self, i, sources@[i], #[trigger] r@[i]),
    {
        let mut r: Vec<AssetPlan> = Vec::new();
        let mut i: usize = 0;
        while i < self.assets.len()
            invariant
                self.wf(),
                sources@.len() == self.assets@.len(),
                i <= self.assets@.len(),
                r@.len() == i,
                forall|j: int| 0 <= j < i ==> plan_fits(*self, j, sources@[j], #[trigger] r@[j]),
            decreases self.assets@.len() - i,
        {
            r.push(self.plan_asset(i, &sources[i]));
            i = i + 1;
        }
        r
    }

    /// Records that asset `i`'s artifact was written from content with `checksum`.
    pub fn record_built(&mut self, i: usize, checksum: &str)
        requires
            old(self).wf(),
            i < old(self).assets@.len(),
        ensures
            final(self).wf(),
            final(self).cache_view() == old(self).cache_view().insert(old(self).assets@[i as int].source@, checksum@),
            final(self).name == old(self).name,
            final(self).root_dir == old(self).root_dir,
            final(self).output_dir == old(self).output_dir,
            final(self).compress == old(self).compress,
            final(self).assets == old(self).assets,
            final(self).manifest_path == old(self).manifest_path,
    {
        let source = self.assets[i].source.clone();
        self.cache.update_or_insert(source.as_str(), checksum);
    }

    /// Takes note of how asset `i`'s plan ended: `written` tells whether its artifact was
    /// written. A checksum is recorded only for a written artifact, so an asset that failed
    /// is tried again by the next build. Returns whether the asset ended well.
    pub fn record_outcome(&mut self, i: usize, plan: &AssetPlan, written: bool) -> (ok: bool)
        requires
            old(self).wf(),
            i < old(self).assets@.len(),
        ensures
            final(self).wf(),
            ok == match plan {
                AssetPlan::Skip => true,
                AssetPlan::Write { .. } => written,
                AssetPlan::Failed { .. } => false,
            },
            final(self).cache_view() == match plan {
                AssetPlan::Write { checksum, .. } if written => old(self).cache_view().insert(
                    old(self).assets@[i as int].source@,
                    checksum@,
                ),
                _ => old(self).cache_view(),
            },
            final(self).name == old(self).name,
            final(self).root_dir == old(self).root_dir,
            final(self).output_dir == old(self).output_dir,
            final(self).compress == old(self).compress,
            final(self).assets == old(self).assets,
            final(self).manifest_path == old(self).manifest_path,
    {
        match plan {
            AssetPlan::Skip => true,
            AssetPlan::Write { checksum, .. } => {
                if written {
                    self.record_built(i, checksum.as_str());
                }
                written
            },
            AssetPlan::Failed { .. } => false,
        }
    }

    /// The checksum cache.
    pub fn cache(&self) -> (r: &BuildCache)
        requires
            self.wf(),
        ensures
            r.wf(),
            r@ == self.cache_view(),
    {
        &self.cache
    }
}

/// Once a source's current checksum is recorded, a later pass over unchanged content skips it.
pub proof fn lemma_unchanged_source_skips(m: Manifest, i: int, src: SourceFile, p: AssetPlan)
    requires
        0 <= i < m.assets@.len(),
        m.cache_view().contains_key(m.assets@[i].source@),
        m.cache_view()[m.assets@[i].source@] == checksum_of(src.data@),
        plan_fits(m, i, src, p),
    ensures
        p is Skip,
{
}

/// A failed transcode records nothing, so the asset stays dirty for the next pass.
pub proof fn lemma_failed_asset_stays_dirty(m: Manifest, i: int, src: SourceFile, p: AssetPlan)
    requires
        0 <= i < m.assets@.len(),
        plan_fits(m, i, src, p),
        p is Failed,
    ensures
        dirty(m.cache_view(), m.assets@[i].source@, checksum_of(src.data@)),
{
}

/// Two assets with the same name write the same artifact path, so the later write replaces
/// the earlier one.
pub proof fn lemma_same_name_same_path(m: Manifest, i: int, j: int, si: SourceFile, sj: SourceFile, pi: AssetPlan, pj: AssetPlan)
    requires
        0 <= i < m.assets@.len(),
        0 <= j < m.assets@.len(),
        m.assets@[i].name@ == m.assets@[j].name@,
        plan_fits(m, i, si, pi),
        plan_fits(m, j, sj, pj),
        pi is Write,
        pj is Write,
    ensures
        pi->Write_path@ == pj->Write_path@,
{
}

} // verus!

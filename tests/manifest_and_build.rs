use std::collections::HashMap;
use std::io::Cursor;
use xpak::asset::AssetType;
use xpak::build_cache::BuildCache;
use xpak::manifest::{path_stays_inside, Action, AssetPlan, Manifest, ManifestError, SourceFile, Step};
use xpak::processors::{process_audio, process_data, process_texture, AssetError, WavContent};

const ONE_TEXTURE: &str = "<PakManifest><OutputDir>build</OutputDir><Compress>false</Compress>\
<Asset name=\"tex1\"><Type>Texture</Type><Source>a.png</Source></Asset></PakManifest>";

fn load(descriptor: &str) -> Result<Manifest, ManifestError> {
    Manifest::new("/proj/game.xml", "game.xml", "/proj", descriptor, BuildCache::new())
}

fn png_bytes() -> Vec<u8> {
    let img = image::RgbImage::from_raw(2, 1, vec![255, 0, 0, 0, 255, 0]).unwrap();
    let mut bytes: Vec<u8> = Vec::new();
    image::DynamicImage::ImageRgb8(img)
        .write_to(&mut Cursor::new(&mut bytes), image::ImageFormat::Png)
        .unwrap();
    bytes
}

fn wav_bytes(bits: u16, format: hound::SampleFormat, n: usize) -> Vec<u8> {
    let spec = hound::WavSpec { channels: 2, sample_rate: 8000, bits_per_sample: bits, sample_format: format };
    let mut cursor = Cursor::new(Vec::new());
    {
        let mut w = hound::WavWriter::new(&mut cursor, spec).unwrap();
        for i in 0..n {
            match format {
                hound::SampleFormat::Float => w.write_sample(i as f32 * 0.25 - 1.0).unwrap(),
                hound::SampleFormat::Int => w.write_sample(i as i16).unwrap(),
            }
        }
        w.finalize().unwrap();
    }
    cursor.into_inner()
}

fn wav_content(bytes: &[u8]) -> WavContent {
    let mut reader = hound::WavReader::new(Cursor::new(bytes)).unwrap();
    let spec = reader.spec();
    let float_samples = spec.sample_format == hound::SampleFormat::Float;
    let sample_bits = if float_samples {
        reader.samples::<f32>().map(|s| s.unwrap().to_bits()).collect()
    } else {
        Vec::new()
    };
    WavContent { bits_per_sample: spec.bits_per_sample, float_samples, sample_bits }
}

fn source(data: Vec<u8>) -> SourceFile {
    SourceFile { data, wav: None }
}

#[test]
fn manifest_reads_settings_and_assets() {
    let m = load(ONE_TEXTURE).unwrap();
    assert_eq!(m.name, "game.xml");
    assert_eq!(m.root_dir, "/proj");
    assert_eq!(m.output_dir, "build");
    assert!(!m.compress);
    assert_eq!(m.assets.len(), 1);
    assert_eq!(m.assets[0].name, "tex1");
    assert_eq!(m.assets[0].asset_type, AssetType::Texture);
    assert_eq!(m.assets[0].source, "a.png");
}

#[test]
fn manifest_compress_true_and_document_order() {
    let text = "<PakManifest><OutputDir>out</OutputDir><Compress>true</Compress>\
<Asset name=\"b\"><Type>Audio</Type><Source>b.wav</Source></Asset>\
<Asset><Type>Data</Type><Source>skip.bin</Source></Asset>\
<Asset name=\"a\"><Type>Mesh</Type><Source>a.bin</Source></Asset></PakManifest>";
    let m = load(text).unwrap();
    assert!(m.compress);
    assert_eq!(m.assets.len(), 2);
    assert_eq!(m.assets[0].name, "b");
    assert_eq!(m.assets[0].asset_type, AssetType::Audio);
    assert_eq!(m.assets[1].name, "a");
    assert_eq!(m.assets[1].asset_type, AssetType::Data);
}

#[test]
fn manifest_empty_type_text_is_data() {
    let text = "<PakManifest><OutputDir>o</OutputDir><Compress>false</Compress>\
<Asset name=\"a\"><Type/><Source>a.bin</Source></Asset></PakManifest>";
    let m = load(text).unwrap();
    assert_eq!(m.assets[0].asset_type, AssetType::Data);
}

#[test]
fn manifest_errors() {
    assert_eq!(load("<PakManifest>").err(), Some(ManifestError::ParseError));
    assert_eq!(load("<Other><OutputDir>o</OutputDir><Compress>true</Compress></Other>").err(), Some(ManifestError::WrongRoot));
    assert_eq!(load("<PakManifest><Compress>true</Compress></PakManifest>").err(), Some(ManifestError::MissingField));
    assert_eq!(load("<PakManifest><OutputDir>o</OutputDir></PakManifest>").err(), Some(ManifestError::MissingField));
    assert_eq!(load("<PakManifest><OutputDir/><Compress>true</Compress></PakManifest>").err(), Some(ManifestError::MissingField));
    let no_source = "<PakManifest><OutputDir>o</OutputDir><Compress>false</Compress>\
<Asset name=\"a\"><Type>Data</Type></Asset></PakManifest>";
    assert_eq!(load(no_source).err(), Some(ManifestError::MissingField));
}

#[test]
fn manifest_to_string() {
    let m = load(ONE_TEXTURE).unwrap();
    assert_eq!(m.to_string(), "Manifest: game.xml\nOutput Dir: build\nCompress: false\nAssets: 1\n");
}

#[test]
fn manifest_paths() {
    let m = load(ONE_TEXTURE).unwrap();
    assert_eq!(m.output_directory(), "/proj/build");
    assert_eq!(m.source_path(0), "/proj/a.png");
    assert_eq!(m.artifact_path(0), "/proj/build/tex1.xpak");
}

#[test]
fn data_passthrough_sizes() {
    assert_eq!(process_data(&[]), Vec::<u8>::new());
    assert_eq!(process_data(&[7]), vec![7]);
    let big: Vec<u8> = (0..5000u32).map(|i| (i * 7 % 256) as u8).collect();
    assert_eq!(process_data(&big), big);
}

#[test]
fn audio_sixteen_bit_is_rejected() {
    let wav = wav_content(&wav_bytes(16, hound::SampleFormat::Int, 6));
    assert_eq!(wav.bits_per_sample, 16);
    assert_eq!(process_audio(&wav), Err(AssetError::UnsupportedFormat));
}

#[test]
fn audio_float_is_packed_little_endian() {
    let wav = wav_content(&wav_bytes(32, hound::SampleFormat::Float, 6));
    let out = process_audio(&wav).unwrap();
    assert_eq!(out.len(), 6 * 4);
    assert_eq!(&out[0..4], &(-1.0f32).to_le_bytes());
    assert_eq!(&out[4..8], &(-0.75f32).to_le_bytes());
}

#[test]
fn audio_packs_given_bits() {
    let wav = WavContent { bits_per_sample: 32, float_samples: true, sample_bits: vec![0x0403_0201, 0xffee_ddcc] };
    assert_eq!(process_audio(&wav), Ok(vec![1, 2, 3, 4, 0xcc, 0xdd, 0xee, 0xff]));
    let int32 = WavContent { bits_per_sample: 32, float_samples: false, sample_bits: vec![] };
    assert_eq!(process_audio(&int32), Err(AssetError::UnsupportedFormat));
}

#[test]
fn texture_decodes_to_rgba() {
    assert_eq!(process_texture(&png_bytes()), Ok(vec![255, 0, 0, 255, 0, 255, 0, 255]));
    assert_eq!(process_texture(b"not an image"), Err(AssetError::DecodeFailed));
}

#[test]
fn build_twice_writes_then_skips() {
    let mut m = load(ONE_TEXTURE).unwrap();
    let sources = vec![source(png_bytes())];
    let mut output: HashMap<String, Vec<u8>> = HashMap::new();

    let first = m.plan_build(&sources);
    assert_eq!(first.len(), 1);
    match &first[0] {
        AssetPlan::Write { path, bytes, checksum } => {
            assert_eq!(path, "/proj/build/tex1.xpak");
            assert_eq!(bytes, &vec![255, 0, 0, 255, 0, 255, 0, 255]);
            assert_eq!(checksum, &BuildCache::calculate_checksum(&png_bytes()));
            output.insert(path.clone(), bytes.clone());
            m.record_built(0, checksum);
        }
        other => panic!("expected a write, got {:?}", other),
    }
    assert_eq!(m.cache().get_checksum("a.png"), Some(BuildCache::calculate_checksum(&png_bytes())));

    let second = m.plan_build(&sources);
    assert!(matches!(second[0], AssetPlan::Skip));
    assert_eq!(output.get("/proj/build/tex1.xpak"), Some(&vec![255, 0, 0, 255, 0, 255, 0, 255]));
}

#[test]
fn build_rewrites_changed_source() {
    let text = "<PakManifest><OutputDir>o</OutputDir><Compress>false</Compress>\
<Asset name=\"d\"><Type>Data</Type><Source>d.bin</Source></Asset></PakManifest>";
    let mut m = load(text).unwrap();
    let first = m.plan_build(&vec![source(vec![1, 2, 3])]);
    if let AssetPlan::Write { checksum, .. } = &first[0] {
        m.record_built(0, checksum);
    } else {
        panic!("expected a write");
    }
    let second = m.plan_build(&vec![source(vec![1, 2, 4])]);
    match &second[0] {
        AssetPlan::Write { bytes, .. } => assert_eq!(bytes, &vec![1, 2, 4]),
        other => panic!("expected a write, got {:?}", other),
    }
}

#[test]
fn same_name_later_asset_overwrites() {
    let text = "<PakManifest><OutputDir>o</OutputDir><Compress>false</Compress>\
<Asset name=\"x\"><Type>Data</Type><Source>one.bin</Source></Asset>\
<Asset name=\"x\"><Type>Data</Type><Source>two.bin</Source></Asset></PakManifest>";
    let m = load(text).unwrap();
    let plans = m.plan_build(&vec![source(vec![1]), source(vec![2])]);
    let mut output: HashMap<String, Vec<u8>> = HashMap::new();
    let mut paths = Vec::new();
    for p in &plans {
        if let AssetPlan::Write { path, bytes, .. } = p {
            paths.push(path.clone());
            output.insert(path.clone(), bytes.clone());
        }
    }
    assert_eq!(paths, vec!["/proj/o/x.xpak".to_string(), "/proj/o/x.xpak".to_string()]);
    assert_eq!(output.get("/proj/o/x.xpak"), Some(&vec![2]));
}

#[test]
fn failed_asset_is_retried() {
    let text = "<PakManifest><OutputDir>o</OutputDir><Compress>false</Compress>\
<Asset name=\"s\"><Type>Audio</Type><Source>s.wav</Source></Asset></PakManifest>";
    let m = load(text).unwrap();
    let data = wav_bytes(16, hound::SampleFormat::Int, 4);
    let src = SourceFile { wav: Some(wav_content(&data)), data };
    let first = m.plan_build(&vec![src]);
    assert!(matches!(first[0], AssetPlan::Failed { error: AssetError::UnsupportedFormat }));
    assert_eq!(m.cache().get_checksum("s.wav"), None);
}

#[test]
fn audio_without_decoded_stream_fails() {
    let text = "<PakManifest><OutputDir>o</OutputDir><Compress>false</Compress>\
<Asset name=\"s\"><Type>Audio</Type><Source>s.wav</Source></Asset></PakManifest>";
    let m = load(text).unwrap();
    let plans = m.plan_build(&vec![source(vec![0, 1, 2])]);
    assert!(matches!(plans[0], AssetPlan::Failed { error: AssetError::DecodeFailed }));
}

#[test]
fn paths_that_stay_inside() {
    assert!(path_stays_inside("a.png"));
    assert!(path_stays_inside("sprite/idle"));
    assert!(path_stays_inside("a..b/c"));
    assert!(path_stays_inside(".hidden/..x"));
    assert!(path_stays_inside(""));
    assert!(!path_stays_inside("/etc/passwd"));
    assert!(!path_stays_inside(".."));
    assert!(!path_stays_inside("../a"));
    assert!(!path_stays_inside("a/../../b"));
    assert!(!path_stays_inside("a/.."));
}

#[test]
fn manifest_refuses_escaping_paths() {
    let out = "<PakManifest><OutputDir>../elsewhere</OutputDir><Compress>false</Compress></PakManifest>";
    assert_eq!(load(out).err(), Some(ManifestError::PathOutsideRoot));
    let src = "<PakManifest><OutputDir>o</OutputDir><Compress>false</Compress>\
<Asset name=\"a\"><Type>Data</Type><Source>/abs/a.bin</Source></Asset></PakManifest>";
    assert_eq!(load(src).err(), Some(ManifestError::PathOutsideRoot));
    let name = "<PakManifest><OutputDir>o</OutputDir><Compress>false</Compress>\
<Asset name=\"../x\"><Type>Data</Type><Source>a.bin</Source></Asset></PakManifest>";
    assert_eq!(load(name).err(), Some(ManifestError::PathOutsideRoot));
}

#[test]
fn manifest_skips_empty_asset_name() {
    let text = "<PakManifest><OutputDir>o</OutputDir><Compress>false</Compress>\
<Asset name=\"\"><Type>Data</Type><Source>a.bin</Source></Asset>\
<Asset name=\"b\"><Type>Data</Type><Source>b.bin</Source></Asset></PakManifest>";
    let m = load(text).unwrap();
    assert_eq!(m.assets.len(), 1);
    assert_eq!(m.assets[0].name, "b");
}

#[test]
fn action_from_flags() {
    assert_eq!(Action::from_flags(true, false, false), Some(Action::Build));
    assert_eq!(Action::from_flags(false, true, false), Some(Action::Rebuild));
    assert_eq!(Action::from_flags(false, false, true), Some(Action::Clean));
    assert_eq!(Action::from_flags(false, false, false), None);
    assert_eq!(Action::from_flags(true, false, true), None);
}

#[test]
fn action_steps() {
    assert_eq!(Action::Clean.steps(), vec![Step::ResetOutputDirectory]);
    assert_eq!(Action::Build.steps(), vec![Step::EnsureOutputDirectory, Step::BuildAssets, Step::SaveCache]);
    assert_eq!(Action::Rebuild.steps(), vec![Step::ResetOutputDirectory, Step::BuildAssets, Step::SaveCache]);
}

#[test]
fn outcome_records_only_written_artifacts() {
    let text = "<PakManifest><OutputDir>o</OutputDir><Compress>false</Compress>\
<Asset name=\"d\"><Type>Data</Type><Source>d.bin</Source></Asset></PakManifest>";
    let mut m = load(text).unwrap();
    let sources = vec![source(vec![9, 9])];
    let plans = m.plan_build(&sources);
    assert!(!m.record_outcome(0, &plans[0], false));
    assert_eq!(m.cache().get_checksum("d.bin"), None);
    assert!(m.record_outcome(0, &plans[0], true));
    assert_eq!(m.cache().get_checksum("d.bin"), Some(BuildCache::calculate_checksum(&[9, 9])));
    let again = m.plan_build(&sources);
    assert!(matches!(again[0], AssetPlan::Skip));
    assert!(m.record_outcome(0, &again[0], false));
    let failed = AssetPlan::Failed { error: AssetError::DecodeFailed };
    assert!(!m.record_outcome(0, &failed, true));
}

//! The simpler image manager: whole-buffer inserts, fixed extension,
//! and its chunked cached-image reader.

use rose_store::disk::{Disk, FileKey};
use rose_store::image_manager::{CachedImage, Error, ImageData, ImageManager};
use rose_store::ident::ImageId;

fn jpeg_key(id: ImageId) -> FileKey {
    FileKey { id: id.0, ext: "jpeg".to_string(), temp: false }
}

#[test]
fn cached_image_reads_in_chunks() {
    let mut c = CachedImage::new(vec![1, 2, 3, 4, 5]);
    assert!(!c.exhausted());
    assert_eq!(c.read_chunk(2), vec![1, 2]);
    assert_eq!(c.read_chunk(2), vec![3, 4]);
    assert_eq!(c.read_chunk(2), vec![5]);
    assert!(c.exhausted());
    assert_eq!(c.read_chunk(2), Vec::<u8>::new());
}

#[test]
fn image_path_fixes_jpeg_extension() {
    let im = ImageManager::new("imgs".to_string());
    let id = ImageId(0xAB00CD);
    // bytes 10 and 11 of this identifier are zero
    assert_eq!(
        im.uuid_to_path(id),
        "imgs/0/0/00000000-0000-0000-0000-000000ab00cd.jpeg"
    );
}

#[test]
fn image_insert_and_get() {
    let mut disk = Disk::new();
    let mut im = ImageManager::new("imgs".to_string());
    let id = ImageId(9);
    let body = vec![10, 20, 30];
    assert_eq!(im.insert(&mut disk, id, body.clone()), Ok(()));
    assert_eq!(disk.read(&jpeg_key(id)), Some(body.clone()));
    // before a publish, the read comes from the file
    match im.get(&disk, id).unwrap() {
        ImageData::File(b) => assert_eq!(b, body),
        ImageData::Cached(_) => panic!("expected a file read before any publish"),
    }
    // after a publish, the read comes from the cache
    im.cache.force_update();
    im.cache.pump(0);
    match im.get(&disk, id).unwrap() {
        ImageData::Cached(mut c) => assert_eq!(c.read_chunk(16), body),
        ImageData::File(_) => panic!("expected a cache hit after the publish"),
    }
}

#[test]
fn image_insert_refuses_overwrite() {
    let mut disk = Disk::new();
    let mut im = ImageManager::new("imgs".to_string());
    let id = ImageId(9);
    assert_eq!(im.insert(&mut disk, id, vec![1]), Ok(()));
    assert_eq!(im.insert(&mut disk, id, vec![2]), Err(Error::Io));
    assert_eq!(disk.read(&jpeg_key(id)), Some(vec![1]));
}

#[test]
fn image_get_missing_is_an_error() {
    let disk = Disk::new();
    let mut im = ImageManager::new("imgs".to_string());
    assert_eq!(im.get(&disk, ImageId(1)).err(), Some(Error::Io));
}

#[test]
fn image_preload_stops_at_missing_file() {
    let mut disk = Disk::new();
    let mut im = ImageManager::new("imgs".to_string());
    let present = ImageId(1);
    assert_eq!(im.insert(&mut disk, present, vec![5]), Ok(()));
    assert_eq!(im.load_cache(&disk, &vec![present]), Ok(()));
    assert_eq!(im.load_cache(&disk, &vec![present, ImageId(2)]), Err(Error::Io));
}

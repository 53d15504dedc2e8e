use std::sync::Arc;
use texmap::mipmap::fixed::ONE;
use texmap::mipmap::wrap::{FilteringMethod, ImageWrap};
use texmap::textures::cache::{Begin, MIPMapCache};
use texmap::textures::options::TexInfo;

fn key(path: &str) -> TexInfo {
    TexInfo::new(path, FilteringMethod::Ewa, ImageWrap::Repeat, ONE, true, 8 * ONE)
}

/// Where a requester stands.
enum Requester {
    Asking,
    Building,
    Done(Arc<String>),
}

/// One step of a requester: it asks, or ends the build it was told to do.
fn step(requester: Requester, cache: &mut MIPMapCache<Arc<String>>, builds: &mut usize, path: &str) -> Requester {
    match requester {
        Requester::Asking => match cache.begin(key(path)) {
            Begin::Hit => Requester::Done(Arc::clone(cache.value(&key(path)).unwrap())),
            Begin::Pending => Requester::Asking,
            Begin::Build => {
                *builds += 1;
                Requester::Building
            }
        },
        Requester::Building => {
            let built = Arc::new(format!("pyramid of {}", path));
            cache.finish(&key(path), Some(Arc::clone(&built)));
            Requester::Done(built)
        }
        done => done,
    }
}

#[test]
fn concurrent_requests_share_one_build() {
    // every interleaving of the steps of three requesters, ten steps long
    for schedule in 0..3usize.pow(10) {
        let mut cache = MIPMapCache::new();
        let mut builds = 0;
        let mut requesters = vec![Requester::Asking, Requester::Asking, Requester::Asking];
        let mut turns = schedule;
        for _ in 0..10 {
            let who = turns % 3;
            turns /= 3;
            let before = std::mem::replace(&mut requesters[who], Requester::Asking);
            requesters[who] = step(before, &mut cache, &mut builds, "wall.png");
        }
        // let every requester run to its end
        for _ in 0..3 {
            for who in 0..3 {
                let before = std::mem::replace(&mut requesters[who], Requester::Asking);
                requesters[who] = step(before, &mut cache, &mut builds, "wall.png");
            }
        }
        // whoever asked at all got the one value, and it was built once
        let first = Arc::clone(cache.value(&key("wall.png")).unwrap());
        assert_eq!(builds, 1);
        assert_eq!(cache.count(), 1);
        for requester in requesters.iter() {
            match requester {
                Requester::Done(value) => assert!(Arc::ptr_eq(value, &first)),
                _ => panic!("a requester is still waiting"),
            }
        }
    }
}

use dashdotcache::cache::{Cache, Config, SetOptions};
use dashdotcache::cache_errors::CacheError;
use dashdotcache::value::Value;
use std::collections::HashMap;

/// A plain rendering of the cache's rules, to hold the cache against.
#[derive(Clone, Debug)]
struct Slot {
    value: String,
    expires_at: Option<u128>,
    parent: Option<String>,
}

struct Plain {
    slots: HashMap<String, Slot>,
    memory: usize,
    sets: u64,
    deletes: u64,
    hits: u64,
    misses: u64,
    max_keys: Option<usize>,
    max_memory: Option<usize>,
}

fn charge(key: &str, slot: &Slot) -> usize {
    key.len() + 160 + slot.value.len() + slot.parent.as_ref().map_or(0, |p| p.len())
}

impl Plain {
    fn new(max_keys: Option<usize>, max_memory: Option<usize>) -> Self {
        Plain {
            slots: HashMap::new(),
            memory: 168,
            sets: 0,
            deletes: 0,
            hits: 0,
            misses: 0,
            max_keys,
            max_memory,
        }
    }

    fn valid(&self, key: &str, now: u128) -> bool {
        let mut cur = key.to_string();
        for _ in 0..=self.slots.len() + 1 {
            match self.slots.get(&cur) {
                None => return false,
                Some(slot) => {
                    if slot.expires_at.map_or(false, |e| now >= e) {
                        return false;
                    }
                    match &slot.parent {
                        None => return true,
                        Some(p) => cur = p.clone(),
                    }
                }
            }
        }
        false
    }

    fn would_cycle(&self, key: &str, parent: &str) -> bool {
        if key == parent {
            return true;
        }
        let mut cur = Some(parent.to_string());
        let mut seen = Vec::new();
        while let Some(k) = cur {
            if k == key || seen.contains(&k) {
                return true;
            }
            seen.push(k.clone());
            cur = self.slots.get(&k).and_then(|s| s.parent.clone());
        }
        false
    }

    fn set(
        &mut self,
        key: &str,
        value: &str,
        ttl: Option<u128>,
        parent: Option<&str>,
        nx: bool,
        xx: bool,
        now: u128,
    ) -> Result<bool, CacheError> {
        let exists = self.slots.contains_key(key);
        if (nx && exists) || (xx && !exists) {
            return Ok(false);
        }
        if let Some(p) = parent {
            if !self.slots.contains_key(p) {
                return Err(CacheError::ParentNotFound(p.to_string()));
            }
            if self.would_cycle(key, p) {
                return Err(CacheError::DependencyCycle(key.to_string(), p.to_string()));
            }
        }
        let slot = Slot {
            value: value.to_string(),
            expires_at: ttl.map(|d| now + d),
            parent: parent.map(|p| p.to_string()),
        };
        let fresh = charge(key, &slot);
        let prior = self.slots.get(key).map_or(0, |s| charge(key, s));
        if let Some(max) = self.max_memory {
            // the gauge may have wrapped below zero: the sum is taken without wrapping
            if self.memory as u128 + fresh as u128 > max as u128 + prior as u128 {
                return Err(CacheError::MemoryLimitExceeded);
            }
        }
        if let Some(max) = self.max_keys {
            if self.slots.len() >= max && !exists {
                return Err(CacheError::KeyLimitExceeded);
            }
        }
        self.slots.insert(key.to_string(), slot);
        self.sets += 1;
        self.memory = self.memory.wrapping_add(fresh).wrapping_sub(prior);
        Ok(true)
    }

    fn get(&mut self, key: &str, now: u128) -> Option<String> {
        if !self.slots.contains_key(key) {
            self.misses += 1;
            return None;
        }
        if !self.valid(key, now) {
            self.misses += 1;
            let slot = self.slots.remove(key).unwrap();
            self.memory = self.memory.wrapping_sub(charge(key, &slot));
            return None;
        }
        self.hits += 1;
        Some(self.slots[key].value.clone())
    }

    fn del(&mut self, keys: &[&str]) -> usize {
        let mut n = 0;
        for k in keys {
            if let Some(slot) = self.slots.remove(*k) {
                self.memory = self.memory.wrapping_sub(charge(k, &slot));
                n += 1;
            }
        }
        self.deletes += n as u64;
        n
    }

    fn ttl(&self, key: &str, now: u128) -> i64 {
        match self.slots.get(key) {
            None => -2,
            Some(slot) => match slot.expires_at {
                None => -1,
                Some(e) if now >= e => -2,
                Some(e) => ((e - now) / 1_000_000_000) as i64,
            },
        }
    }

    fn descendants(&self, top: &str, max_depth: usize) -> Vec<(String, u64)> {
        let mut out = Vec::new();
        let mut level = vec![top.to_string()];
        for depth in 1..=max_depth {
            let mut next = Vec::new();
            for (k, slot) in &self.slots {
                if slot.parent.as_ref().map_or(false, |p| level.contains(p)) {
                    out.push((k.clone(), depth as u64));
                    next.push(k.clone());
                }
            }
            if next.is_empty() {
                break;
            }
            level = next;
        }
        out.sort();
        out
    }
}

struct Dice(u64);

impl Dice {
    fn roll(&mut self, sides: u64) -> u64 {
        self.0 = self
            .0
            .wrapping_mul(6364136223846793005)
            .wrapping_add(1442695040888963407);
        (self.0 >> 33) % sides
    }
}

fn sorted(mut v: Vec<String>) -> Vec<String> {
    v.sort();
    v
}

fn run(seed: u64, steps: usize, max_keys: Option<usize>, max_memory: Option<usize>) {
    let mut dice = Dice(seed);
    let mut cache = Cache::new(Config {
        max_keys,
        max_memory,
        ..Default::default()
    });
    let mut plain = Plain::new(max_keys, max_memory);
    let names: Vec<String> = (0..8).map(|i| format!("k{}", i)).collect();
    let mut now: u128 = 0;

    for _ in 0..steps {
        now += dice.roll(700_000_000) as u128;
        let key = names[dice.roll(8) as usize].clone();
        let other = names[dice.roll(8) as usize].clone();
        match dice.roll(12) {
            0..=3 => {
                let value = "v".repeat(dice.roll(40) as usize);
                let ttl = match dice.roll(3) {
                    0 => Some(dice.roll(3_000_000_000) as u128),
                    _ => None,
                };
                let parent = match dice.roll(3) {
                    0 => Some(other.clone()),
                    _ => None,
                };
                let nx = dice.roll(8) == 0;
                let xx = dice.roll(8) == 0;
                let got = cache.set_at(
                    key.clone(),
                    Value::String(value.clone()),
                    SetOptions {
                        ttl,
                        parent: parent.clone(),
                        nx,
                        xx,
                    },
                    now,
                );
                let want = plain.set(&key, &value, ttl, parent.as_deref(), nx, xx, now);
                assert_eq!(got, want);
            }
            4 | 5 => {
                let got = cache.get_at(&key, now);
                let want = plain.get(&key, now).map(Value::String);
                assert_eq!(got, want);
            }
            6 => {
                let got = cache.del(&[key.as_str(), other.as_str()]);
                let want = plain.del(&[key.as_str(), other.as_str()]);
                assert_eq!(got, want);
            }
            7 => {
                let seconds = dice.roll(4);
                let got = cache.expire_at(&key, seconds, now);
                let want = match plain.slots.get_mut(&key) {
                    Some(slot) => {
                        slot.expires_at = Some(now + seconds as u128 * 1_000_000_000);
                        1
                    }
                    None => 0,
                };
                assert_eq!(got, want);
            }
            8 => {
                let got = cache.persist(&key);
                let want = match plain.slots.get_mut(&key) {
                    Some(slot) => {
                        slot.expires_at = None;
                        1
                    }
                    None => 0,
                };
                assert_eq!(got, want);
            }
            9 => {
                let got = cache.set_parent(&key, other.clone());
                let want = if !plain.slots.contains_key(&other) {
                    Err(CacheError::ParentNotFound(other.clone()))
                } else if plain.would_cycle(&key, &other) {
                    Err(CacheError::DependencyCycle(key.clone(), other.clone()))
                } else if let Some(slot) = plain.slots.get_mut(&key) {
                    slot.parent = Some(other.clone());
                    Ok(1)
                } else {
                    Ok(0)
                };
                assert_eq!(got, want);
            }
            10 => {
                let doomed: Vec<String> = plain
                    .slots
                    .iter()
                    .filter(|(_, s)| s.expires_at.map_or(false, |e| now >= e))
                    .map(|(k, _)| k.clone())
                    .collect();
                let sampled: Vec<String> = names.clone();
                let got = cache.purge(&sampled, now);
                let refs: Vec<&str> = doomed.iter().map(String::as_str).collect();
                let want = plain.del(&refs);
                assert_eq!(got, want);
            }
            _ => {
                if dice.roll(20) == 0 {
                    cache.flush_all();
                    plain.slots.clear();
                    plain.memory = 0;
                }
            }
        }

        // what can be seen of the two must agree after every step
        assert_eq!(cache.len(), plain.slots.len());
        assert_eq!(cache.memory_usage(), plain.memory);
        assert_eq!(cache.stats().sets, plain.sets);
        assert_eq!(cache.stats().deletes, plain.deletes);
        assert_eq!(cache.stats().hits, plain.hits);
        assert_eq!(cache.stats().misses, plain.misses);
        assert_eq!(
            sorted(cache.keys("*", usize::MAX)),
            sorted(plain.slots.keys().cloned().collect())
        );
        for name in &names {
            assert_eq!(cache.exists_at(name, now), plain.valid(name, now));
            assert_eq!(cache.ttl_at(name, now), plain.ttl(name, now));
            assert_eq!(
                cache.parent(name),
                plain.slots.get(name).and_then(|s| s.parent.clone())
            );
            let want_children: Vec<String> = plain
                .slots
                .iter()
                .filter(|(_, s)| s.parent.as_deref() == Some(name.as_str()))
                .map(|(k, _)| k.clone())
                .collect();
            assert_eq!(sorted(cache.children(name)), sorted(want_children));
            let mut got = cache.children_recursive(name, 3);
            let in_order = got.windows(2).all(|w| w[0].1 <= w[1].1);
            assert!(in_order);
            got.sort();
            assert_eq!(got, plain.descendants(name, 3));
        }
    }
}

#[test]
fn random_walks_agree_with_the_plain_rules() {
    for seed in 1..=12 {
        run(seed, 400, None, None);
    }
}

#[test]
fn random_walks_under_a_key_limit() {
    for seed in 20..=26 {
        run(seed, 300, Some(4), None);
    }
}

#[test]
fn random_walks_under_a_memory_limit() {
    for seed in 40..=46 {
        run(seed, 300, None, Some(168 + 5 * 180));
    }
}

use discors::shard::{Frame, WebSocketShard};
use discors::term::Term;
use discors::zlib::Inflate;

/// A small generator of numbers that looks random and is the same each time.
struct Numbers(u64);

impl Numbers {
    fn next(&mut self) -> u64 {
        self.0 ^= self.0 << 13;
        self.0 ^= self.0 >> 7;
        self.0 ^= self.0 << 17;
        self.0
    }

    fn below(&mut self, bound: u64) -> u64 {
        self.next() % bound
    }
}

const TAGS: [u8; 24] = [
    70, 97, 98, 99, 100, 104, 105, 106, 107, 108, 109, 110, 111, 115, 116, 118, 119, 68, 77, 80,
    82, 88, 103, 113,
];

fn frame(numbers: &mut Numbers) -> Vec<u8> {
    let len = numbers.below(40) as usize;
    let mut bytes = vec![131];
    for _ in 0..len {
        let byte = match numbers.below(4) {
            0 => TAGS[numbers.below(TAGS.len() as u64) as usize],
            1 => numbers.below(4) as u8,
            _ => numbers.below(256) as u8,
        };
        bytes.push(byte);
    }
    bytes
}

#[test]
fn decode_answers_every_buffer() {
    let mut numbers = Numbers(0x9e37_79b9_7f4a_7c15);
    let mut decoded = 0;
    for _ in 0..60000 {
        let bytes = frame(&mut numbers);
        if let Ok(term) = Term::decode(&bytes) {
            decoded += 1;
            let again = term.encode().expect("a decoded term encodes");
            assert!(Term::decode(&again).is_ok());
        }
    }
    assert!(decoded > 0);
}

#[test]
fn decode_answers_buffers_of_any_bytes() {
    let mut numbers = Numbers(42);
    for _ in 0..20000 {
        let len = numbers.below(24) as usize;
        let bytes: Vec<u8> = (0..len).map(|_| numbers.below(256) as u8).collect();
        let _ = Term::decode(&bytes);
    }
}

#[test]
fn the_decompressor_answers_every_unit() {
    let mut numbers = Numbers(7);
    let mut inflate = Inflate::new();
    for _ in 0..20000 {
        let len = numbers.below(30) as usize;
        let mut bytes: Vec<u8> = (0..len).map(|_| numbers.below(256) as u8).collect();
        match numbers.below(3) {
            0 => bytes.extend_from_slice(&[0, 0, 0xff, 0xff]),
            1 => {
                let mut unit = vec![0x78, 0x9c];
                unit.append(&mut bytes);
                unit.extend_from_slice(&[0, 0, 0xff, 0xff]);
                bytes = unit;
            }
            _ => {}
        }
        let _ = inflate.feed(&bytes);
    }
}

#[test]
fn a_shard_answers_every_frame() {
    let mut numbers = Numbers(99);
    let mut shard = WebSocketShard::new(0, String::new());
    for _ in 0..20000 {
        if shard.is_finished() {
            shard = WebSocketShard::new(0, String::new());
        }
        let len = numbers.below(20) as usize;
        let mut bytes: Vec<u8> = (0..len).map(|_| numbers.below(256) as u8).collect();
        if numbers.below(2) == 0 {
            // a stored block of a zlib stream that holds the bytes, then the flush marker
            let mut unit = vec![0x78, 0x01, 0x00];
            let n = bytes.len() as u16;
            unit.extend_from_slice(&n.to_le_bytes());
            unit.extend_from_slice(&(!n).to_le_bytes());
            unit.append(&mut bytes);
            unit.extend_from_slice(&[0, 0, 0, 0xff, 0xff]);
            bytes = unit;
            shard = WebSocketShard::new(0, String::new());
        }
        let _ = shard.handle_frame(Frame::Binary(bytes));
    }
}

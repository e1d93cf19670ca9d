use js_strings::{CodePoint, Conversion, JsString, Normalization, Runs, String};

struct Generator(u64);

impl Generator {
    fn next(&mut self) -> u64 {
        self.0 = self.0.wrapping_mul(6364136223846793005).wrapping_add(1442695040888963407);
        self.0 >> 33
    }

    fn below(&mut self, bound: u64) -> u64 {
        self.next() % bound
    }

    fn unit(&mut self) -> u16 {
        const ALPHABET: [u16; 12] = [
            0x0061, 0x0062, 0x0041, 0x03A3, 0x00DF, 0x0301, 0x0065, 0xD800, 0xDBFF, 0xDC00, 0xDFFF,
            0xFB01,
        ];
        ALPHABET[self.below(ALPHABET.len() as u64) as usize]
    }

    fn string(&mut self, longest: u64) -> JsString {
        let length = self.below(longest + 1);
        JsString::from_units((0..length).map(|_| self.unit()).collect())
    }
}

fn lone_surrogates(string: &JsString) -> Vec<u16> {
    string
        .to_code_points()
        .iter()
        .filter_map(|point| match point {
            CodePoint::UnpairedSurrogate(unit) => Some(*unit),
            CodePoint::Scalar(_) => None,
        })
        .collect()
}

fn join(pieces: &[JsString], separator: &JsString) -> JsString {
    let mut out = JsString::new();
    for (index, piece) in pieces.iter().enumerate() {
        if index > 0 {
            out = out.concat(separator);
        }
        out = out.concat(piece);
    }
    out
}

#[test]
fn decoding_and_encoding_many_strings() {
    let mut generator = Generator(1);
    for _ in 0..2000 {
        let string = generator.string(12);
        let mut encoded = Vec::new();
        for point in string.to_code_points() {
            point.encode_utf16(&mut encoded);
        }
        assert_eq!(encoded, string.as_slice());
        assert_eq!(Runs::of(&string).join(), string);
    }
}

#[test]
fn converting_many_strings_keeps_their_lone_surrogates() {
    let mut generator = Generator(2);
    let kinds = [
        Conversion::Lowercase,
        Conversion::Uppercase,
        Conversion::Normalize(Normalization::Nfc),
        Conversion::Normalize(Normalization::Nfd),
        Conversion::Normalize(Normalization::Nfkc),
        Conversion::Normalize(Normalization::Nfkd),
    ];
    for _ in 0..1000 {
        let string = generator.string(10);
        for kind in kinds {
            let converted = string.convert(kind);
            assert_eq!(lone_surrogates(&converted), lone_surrogates(&string));
            if let Conversion::Normalize(_) = kind {
                assert_eq!(converted.convert(kind), converted);
            }
        }
    }
}

#[test]
fn splitting_many_strings_and_joining_them_again() {
    let mut generator = Generator(3);
    for _ in 0..2000 {
        let string = generator.string(12);
        let mut separator = generator.string(2);
        if separator.is_empty() {
            separator = JsString::from_units(vec![0x0061]);
        }
        let pieces = String::split(&string, Some(&separator), None);
        assert_eq!(join(&pieces, &separator), string);
        for piece in &pieces {
            assert_eq!(piece.index_of(&separator, 0).filter(|_| separator.len() > 1), None);
        }
        let positions = string.match_positions(&separator);
        assert_eq!(pieces.len(), positions.len() + 1);
        let limit = generator.below(4) as u32;
        let limited = String::split(&string, Some(&separator), Some(limit));
        assert_eq!(limited.as_slice(), &pieces[..pieces.len().min(limit as usize)]);
    }
}

#[test]
fn replacing_in_many_strings() {
    let mut generator = Generator(4);
    for _ in 0..2000 {
        let string = generator.string(12);
        let search = generator.string(2);
        let replacement = generator.string(3);
        let replaced = String::replace_all(&string, &search, &replacement);
        if search.is_empty() {
            assert_eq!(replaced.len(), string.len() + (string.len() + 1) * replacement.len());
        } else {
            let pieces = String::split(&string, Some(&search), None);
            assert_eq!(replaced, join(&pieces, &replacement));
        }
        let same = String::replace_all_with(&string, &search, |_: &JsString, _: usize, _: &JsString| {
            Ok::<JsString, ()>(replacement.clone())
        });
        assert_eq!(same, Ok(replaced));
        let once = String::replace(&string, &search, &replacement);
        match string.index_of(&search, 0) {
            Some(position) => {
                let before = string.slice(0, position).unwrap();
                let after = string.slice(position + search.len(), string.len()).unwrap();
                assert_eq!(once, before.concat(&replacement).concat(&after));
            }
            None => assert_eq!(once, string),
        }
    }
}

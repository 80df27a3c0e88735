//! The trace encoder's output parses as JSON: a hand-rolled check of the
//! subset the schema uses (objects, arrays, strings with escapes, numbers).

use gbench::BenchData;
use gbench::Fixed;
use gbench::trace_render;

struct Parser<'a> {
    bytes: &'a [u8],
    pos: usize,
}

impl<'a> Parser<'a> {
    fn peek(&self) -> Option<u8> {
        self.bytes.get(self.pos).copied()
    }

    fn eat(&mut self, b: u8) -> bool {
        if self.peek() == Some(b) {
            self.pos += 1;
            true
        } else {
            false
        }
    }

    fn value(&mut self) -> bool {
        match self.peek() {
            Some(b'{') => self.object(),
            Some(b'[') => self.array(),
            Some(b'"') => self.string(),
            Some(b'-') | Some(b'0'..=b'9') => self.number(),
            _ => false,
        }
    }

    fn object(&mut self) -> bool {
        if !self.eat(b'{') {
            return false;
        }
        if self.eat(b'}') {
            return true;
        }
        loop {
            if !self.string() || !self.eat(b':') || !self.value() {
                return false;
            }
            if self.eat(b'}') {
                return true;
            }
            if !self.eat(b',') {
                return false;
            }
        }
    }

    fn array(&mut self) -> bool {
        if !self.eat(b'[') {
            return false;
        }
        if self.eat(b']') {
            return true;
        }
        loop {
            if !self.value() {
                return false;
            }
            if self.eat(b']') {
                return true;
            }
            if !self.eat(b',') {
                return false;
            }
        }
    }

    fn string(&mut self) -> bool {
        if !self.eat(b'"') {
            return false;
        }
        while let Some(b) = self.peek() {
            if b == b'"' {
                self.pos += 1;
                return true;
            }
            if b == b'\\' {
                self.pos += 1;
                match self.peek() {
                    Some(b'"') | Some(b'\\') | Some(b'/') | Some(b'b') | Some(b'f')
                    | Some(b'n') | Some(b'r') | Some(b't') => self.pos += 1,
                    Some(b'u') => {
                        self.pos += 1;
                        for _ in 0..4 {
                            match self.peek() {
                                Some(h) if h.is_ascii_hexdigit() => self.pos += 1,
                                _ => return false,
                            }
                        }
                    }
                    _ => return false,
                }
                continue;
            }
            if b < 0x20 {
                return false;
            }
            self.pos += 1;
        }
        false
    }

    fn number(&mut self) -> bool {
        self.eat(b'-');
        let digits_start = self.pos;
        while matches!(self.peek(), Some(b'0'..=b'9')) {
            self.pos += 1;
        }
        if self.pos == digits_start {
            return false;
        }
        if self.eat(b'.') {
            let frac_start = self.pos;
            while matches!(self.peek(), Some(b'0'..=b'9')) {
                self.pos += 1;
            }
            if self.pos == frac_start {
                return false;
            }
        }
        true
    }
}

fn is_json(text: &str) -> bool {
    let mut p = Parser { bytes: text.as_bytes(), pos: 0 };
    p.value() && p.pos == p.bytes.len()
}

#[test]
fn checker_accepts_and_rejects() {
    assert!(is_json("{\"a\":1,\"b\":[\"x\",-2.5],\"c\":{}}"));
    assert!(!is_json("{\"a\":1"));
    assert!(!is_json("{\"a\":}"));
    assert!(!is_json("[1,]"));
}

#[test]
fn rendered_documents_are_valid_json() {
    let lists = vec![
        Vec::new(),
        vec![BenchData::Log { log: String::from("a log line"), ts: 3, tid: 1 }],
        vec![
            BenchData::Bench { name: String::from("phase one"), ts: 0, dur: 12, tid: 0 },
            BenchData::Count {
                name: String::from("heap"),
                ts: 4,
                tid: 2,
                data: vec![
                    (String::from("used"), Fixed::new(true, 1250)),
                    (String::from("free"), Fixed::from_int(7)),
                ],
            },
            BenchData::Count { name: String::from("idle"), ts: 9, tid: 0, data: Vec::new() },
            BenchData::Log { log: String::from("done"), ts: 11, tid: 1 },
        ],
    ];
    for data in &lists {
        assert!(is_json(&trace_render(data)));
    }
}

#[test]
fn checker_handles_escapes() {
    assert!(is_json("{\"a\\\"b\":\"c\\\\d\"}"));
    assert!(is_json("\"line\\u000abreak\""));
    assert!(!is_json("\"bad\\xescape\""));
    assert!(!is_json("\"raw\u{0001}control\""));
    assert!(!is_json("\"unterminated\\u00\""));
}

#[test]
fn quotes_and_controls_are_escaped() {
    let data = vec![BenchData::Log {
        log: String::from("a\"b\\c\nd"),
        ts: 0,
        tid: 0,
    }];
    let expected = "{\"otherData\":{},\"traceEvents\":[{\"cat\":\"log\",\"name\":\"a\\\"b\\\\c\\u000ad\",\"ph\":\"I\",\"pid\":0,\"tid\":0,\"ts\":0}]}";
    assert_eq!(trace_render(&data), expected);
    assert!(is_json(&trace_render(&data)));
}

#[test]
fn hostile_strings_still_render_valid_json() {
    let data = vec![
        BenchData::Log { log: String::from("quote \" backslash \\ tab \t"), ts: 1, tid: 0 },
        BenchData::Bench { name: String::from("\"};{\""), ts: 2, dur: 3, tid: 1 },
        BenchData::Count {
            name: String::from("g\"r\\o\u{0002}up"),
            ts: 4,
            tid: 2,
            data: vec![(String::from("fi\"eld"), Fixed::from_int(5))],
        },
    ];
    assert!(is_json(&trace_render(&data)));
}

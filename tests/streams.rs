use progress_streams::{
    ByteSink, ByteSource, MemSink, MemSource, ProgressCallback, ProgressLog, ProgressReader,
    ProgressWriter,
};
use std::cell::Cell;
use std::rc::Rc;

/// A callback made of a closure, as callers usually write one.
struct Closure<F: FnMut(usize)>(F);

impl<F: FnMut(usize)> ProgressCallback for Closure<F> {
    fn on_progress(&mut self, n: usize) {
        (self.0)(n)
    }
}

/// A source that fails every read.
struct BrokenSource;

impl ByteSource for BrokenSource {
    type Error = String;

    fn read(&mut self, _buf: &mut [u8]) -> Result<usize, String> {
        Err("disk on fire".to_string())
    }
}

/// A sink that fails every write and every flush.
struct BrokenSink;

impl ByteSink for BrokenSink {
    type Error = String;

    fn write(&mut self, _buf: &[u8]) -> Result<usize, String> {
        Err("pipe closed".to_string())
    }

    fn flush(&mut self) -> Result<(), String> {
        Err("pipe closed".to_string())
    }
}

#[test]
fn reader_single_large_read() {
    let mut reader = ProgressReader::new(MemSource::new(vec![0u8; 8192]), ProgressLog::new());
    let mut buf = [1u8; 8192];
    assert_eq!(reader.read(&mut buf).unwrap(), 8192);
    assert!(buf.iter().all(|b| *b == 0));
    let src = reader.into_inner();
    assert_eq!(src.position(), 8192);
}

#[test]
fn reader_reports_each_read() {
    let mut reader = ProgressReader::new(MemSource::new(vec![0u8; 8192]), ProgressLog::new());
    let mut buf = [0u8; 8192];
    assert_eq!(reader.read(&mut buf).unwrap(), 8192);
    assert_eq!(reader.callback_ref().counts(), &[8192]);
    let total = Rc::new(Cell::new(0usize));
    let calls = Rc::new(Cell::new(0usize));
    let (t, c) = (total.clone(), calls.clone());
    let mut counted = ProgressReader::new(
        MemSource::new(vec![0u8; 8192]),
        Closure(move |n: usize| {
            t.set(t.get() + n);
            c.set(c.get() + 1);
        }),
    );
    assert_eq!(counted.read(&mut buf).unwrap(), 8192);
    assert_eq!(total.get(), 8192);
    assert_eq!(calls.get(), 1);
}

#[test]
fn reader_small_buffer_sequence() {
    let data: Vec<u8> = (1..=10).collect();
    let log = Rc::new(std::cell::RefCell::new(Vec::new()));
    let l = log.clone();
    let mut reader = ProgressReader::new(
        MemSource::new(data.clone()),
        Closure(move |n: usize| l.borrow_mut().push(n)),
    );
    let mut out = Vec::new();
    let mut buf = [0u8; 3];
    loop {
        let n = reader.read(&mut buf).unwrap();
        out.extend_from_slice(&buf[..n]);
        if n == 0 {
            break;
        }
    }
    assert_eq!(*log.borrow(), vec![3, 3, 3, 1, 0]);
    assert_eq!(log.borrow().iter().sum::<usize>(), 10);
    assert_eq!(out, data);
}

#[test]
fn reader_matches_bare_source() {
    let data: Vec<u8> = (0..200u8).collect();
    let mut bare = MemSource::new(data.clone());
    let mut wrapped = ProgressReader::new(MemSource::new(data), ProgressLog::new());
    for size in [0usize, 1, 7, 64, 3, 500, 9] {
        let mut a = vec![0u8; size];
        let mut b = vec![0u8; size];
        let na = bare.read(&mut a).unwrap();
        let nb = wrapped.read(&mut b).unwrap();
        assert_eq!(na, nb);
        assert_eq!(a[..na], b[..nb]);
    }
}

#[test]
fn reader_log_sums_to_bytes_read() {
    let mut reader = ProgressReader::new(MemSource::new(vec![5u8; 1000]), ProgressLog::new());
    let mut read = 0usize;
    for size in [10usize, 300, 0, 999, 4] {
        let mut buf = vec![0u8; size];
        read += reader.read(&mut buf).unwrap();
    }
    assert_eq!(read, 1000);
    let counts = reader.callback_ref().counts();
    assert_eq!(counts, &[10, 300, 0, 690, 0]);
    assert_eq!(counts.iter().sum::<usize>(), read);
}

#[test]
fn reader_empty_buffer_reports_zero() {
    let mut reader = ProgressReader::new(MemSource::new(vec![1, 2, 3]), ProgressLog::new());
    let mut buf: [u8; 0] = [];
    assert_eq!(reader.read(&mut buf).unwrap(), 0);
    assert_eq!(reader.callback_ref().counts(), &[0]);
    assert_eq!(reader.into_inner().position(), 0);
}

#[test]
fn reader_failure_propagates_without_report() {
    let calls = Rc::new(Cell::new(0usize));
    let c = calls.clone();
    let mut reader = ProgressReader::new(BrokenSource, Closure(move |_n: usize| c.set(c.get() + 1)));
    let mut buf = [0u8; 16];
    assert_eq!(reader.read(&mut buf), Err("disk on fire".to_string()));
    assert_eq!(calls.get(), 0);
}

#[test]
fn reader_into_inner_keeps_position() {
    let mut reader = ProgressReader::new(MemSource::new(vec![1, 2, 3, 4, 5]), ProgressLog::new());
    let mut buf = [0u8; 2];
    reader.read(&mut buf).unwrap();
    let mut src = reader.into_inner();
    assert_eq!(src.position(), 2);
    let mut rest = [0u8; 8];
    assert_eq!(src.read(&mut rest).unwrap(), 3);
    assert_eq!(rest[..3], [3, 4, 5]);
}

#[test]
fn writer_single_large_write() {
    let mut writer = ProgressWriter::new(MemSink::new(), ProgressLog::new());
    let buf = [0u8; 8192];
    assert_eq!(writer.write(&buf).unwrap(), 8192);
    assert_eq!(writer.callback_ref().counts(), &[8192]);
    let sink = writer.into_inner();
    assert_eq!(sink.bytes(), &[0u8; 8192][..]);
    assert_eq!(sink.into_bytes(), vec![0u8; 8192]);
}

#[test]
fn writer_closure_called_once() {
    let total = Rc::new(Cell::new(0usize));
    let calls = Rc::new(Cell::new(0usize));
    let (t, c) = (total.clone(), calls.clone());
    let mut writer = ProgressWriter::new(
        MemSink::new(),
        Closure(move |n: usize| {
            t.set(t.get() + n);
            c.set(c.get() + 1);
        }),
    );
    assert_eq!(writer.write(&[0u8; 8192]).unwrap(), 8192);
    assert_eq!(total.get(), 8192);
    assert_eq!(calls.get(), 1);
}

#[test]
fn writer_reports_partial_write() {
    let mut writer = ProgressWriter::new(MemSink::with_limit(5), ProgressLog::new());
    assert_eq!(writer.write(&[1, 2, 3, 4, 5, 6, 7, 8]).unwrap(), 5);
    assert_eq!(writer.write(&[9, 10]).unwrap(), 0);
    assert_eq!(writer.callback_ref().counts(), &[5, 0]);
    assert_eq!(writer.into_inner().into_bytes(), vec![1, 2, 3, 4, 5]);
}

#[test]
fn writer_forwards_bytes_in_order() {
    let mut writer = ProgressWriter::new(MemSink::new(), ProgressLog::new());
    writer.write(b"hello").unwrap();
    writer.write(b"").unwrap();
    writer.write(b", world").unwrap();
    assert_eq!(writer.callback_ref().counts(), &[5, 0, 7]);
    assert_eq!(writer.into_inner().into_bytes(), b"hello, world".to_vec());
}

#[test]
fn writer_flush_does_not_report() {
    let mut writer = ProgressWriter::new(MemSink::new(), ProgressLog::new());
    writer.write(b"abc").unwrap();
    writer.flush().unwrap();
    writer.flush().unwrap();
    assert_eq!(writer.callback_ref().counts(), &[3]);
    assert_eq!(writer.into_inner().bytes(), b"abc");
}

#[test]
fn writer_failed_flush_does_not_report() {
    let calls = Rc::new(Cell::new(0usize));
    let c = calls.clone();
    let mut writer = ProgressWriter::new(BrokenSink, Closure(move |_n: usize| c.set(c.get() + 1)));
    assert_eq!(writer.flush(), Err("pipe closed".to_string()));
    assert_eq!(calls.get(), 0);
}

#[test]
fn writer_failure_propagates_without_report() {
    let calls = Rc::new(Cell::new(0usize));
    let c = calls.clone();
    let mut writer = ProgressWriter::new(BrokenSink, Closure(move |_n: usize| c.set(c.get() + 1)));
    assert_eq!(writer.write(b"data"), Err("pipe closed".to_string()));
    assert_eq!(calls.get(), 0);
}

#[test]
fn nested_readers_both_report() {
    let inner = ProgressReader::new(MemSource::new(vec![9u8; 4]), ProgressLog::new());
    let mut outer = ProgressReader::new(inner, ProgressLog::new());
    let mut buf = [0u8; 3];
    assert_eq!(outer.read(&mut buf).unwrap(), 3);
    assert_eq!(outer.read(&mut buf).unwrap(), 1);
    assert_eq!(outer.callback_ref().counts(), &[3, 1]);
    let inner = outer.into_inner();
    assert_eq!(inner.callback_ref().counts(), &[3, 1]);
}

#[test]
fn log_records_in_order() {
    let mut log = ProgressLog::new();
    assert!(log.counts().is_empty());
    log.on_progress(4);
    log.on_progress(0);
    log.on_progress(11);
    assert_eq!(log.counts(), &[4, 0, 11]);
}

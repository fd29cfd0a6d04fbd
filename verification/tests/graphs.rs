use algorithms_rs::error::Error;
use algorithms_rs::graph::{AdjacencyList, AdjacencyMatrix, Graph};

fn lines(text: &[&str]) -> Vec<Vec<u8>> {
    text.iter().map(|l| l.as_bytes().to_vec()).collect()
}

#[test]
fn matrix_from_lines_small() {
    let input = lines(&["4 4", "0 1", "1 2", "2 3", "3 0"]);
    let g = AdjacencyMatrix::from_lines(&input).unwrap();
    assert_eq!(g.vertex(), 4);
    assert_eq!(g.edge(), 4);
    assert!(g.has_edge(0, 1));
    assert!(g.has_edge(1, 0));
    assert!(g.has_edge(3, 0));
    assert!(!g.has_edge(0, 2));
    assert_eq!(g.adj(0), vec![1, 3]);
    assert_eq!(g.degree(0), 2);
}

#[test]
fn list_from_lines_small() {
    let input = lines(&["4 4", "0 1", "1 2", "2 3", "3 0"]);
    let g = AdjacencyList::from_lines(&input).unwrap();
    assert_eq!(g.vertex(), 4);
    assert_eq!(g.edge(), 4);
    assert!(g.has_edge(0, 1));
    assert!(g.has_edge(1, 0));
    assert!(!g.has_edge(0, 2));
    assert_eq!(g.adj(0), vec![1, 3]);
    assert_eq!(g.adj(1), vec![0, 2]);
    assert_eq!(g.degree(2), 2);
}

#[test]
fn from_lines_rejects_self_loop() {
    let input = lines(&["3 1", "1 1"]);
    assert!(matches!(
        AdjacencyMatrix::from_lines(&input),
        Err(Error::SelfLoop)
    ));
    assert!(matches!(
        AdjacencyList::from_lines(&input),
        Err(Error::SelfLoop)
    ));
}

#[test]
fn from_lines_rejects_parallel_edges() {
    let input = lines(&["3 2", "0 1", "1 0"]);
    assert!(matches!(
        AdjacencyMatrix::from_lines(&input),
        Err(Error::ParallelEdges)
    ));
    assert!(matches!(
        AdjacencyList::from_lines(&input),
        Err(Error::ParallelEdges)
    ));
}

#[test]
fn from_lines_rejects_bad_numbers() {
    let input = lines(&["3 1", "0 x"]);
    assert!(matches!(
        AdjacencyMatrix::from_lines(&input),
        Err(Error::ConvertError)
    ));
    let input = lines(&["y 1", "0 1"]);
    assert!(matches!(
        AdjacencyMatrix::from_lines(&input),
        Err(Error::ConvertError)
    ));
}

#[test]
fn from_lines_rejects_missing_endpoint() {
    // an edge line with one token has no second endpoint
    let input = lines(&["3 1", "0"]);
    assert!(matches!(
        AdjacencyMatrix::from_lines(&input),
        Err(Error::IndexOfBounds)
    ));
    // a missing edge line is read as the single token zero
    let input = lines(&["3 2", "0 1"]);
    assert!(matches!(
        AdjacencyList::from_lines(&input),
        Err(Error::IndexOfBounds)
    ));
}

#[test]
fn from_lines_rejects_vertex_out_of_range() {
    let input = lines(&["3 1", "0 7"]);
    assert!(matches!(
        AdjacencyMatrix::from_lines(&input),
        Err(Error::IndexOfBounds)
    ));
}

#[test]
fn from_lines_empty_input() {
    // no lines at all: both counts are read as zero
    let input: Vec<Vec<u8>> = Vec::new();
    let g = AdjacencyMatrix::from_lines(&input).unwrap();
    assert_eq!(g.vertex(), 0);
    assert_eq!(g.edge(), 0);
}

#[test]
fn error_from_io_and_messages() {
    let e = Error::from_io(std::io::ErrorKind::NotFound);
    assert!(matches!(e, Error::IOError(std::io::ErrorKind::NotFound)));

    assert_eq!(Error::IndexOfBounds.message(), "Array Index of bounds!");
    assert_eq!(Error::SelfLoop.message(), "Self loop is Detected");
    assert_eq!(Error::ParallelEdges.message(), "Parallel Edged are Detected");
    assert_eq!(Error::ConvertError.message(), "Convert error");
}

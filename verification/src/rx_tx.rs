pub mod can_rx_tx;
